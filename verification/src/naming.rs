//! Deriving an addon's install name from its manifest title.
//!
//! The title has spaces turned into underscores and apostrophes dropped, and
//! the result is then sanitised for filesystem safety. An empty title yields
//! no name at all; the caller falls back to asking for one.

use vstd::prelude::*;

verus! {

/// A title character's contribution to the name seed: a space becomes an
/// underscore, an apostrophe disappears, anything else stays.
pub open spec fn seed_char(c: char) -> Seq<char> {
    if c == ' ' {
        seq!['_']
    } else if c == '\'' {
        Seq::empty()
    } else {
        seq![c]
    }
}

/// The name seed of a title: every character replaced by its contribution.
pub open spec fn spec_name_seed(s: Seq<char>) -> Seq<char>
    decreases s.len(),
{
    if s.len() == 0 {
        Seq::empty()
    } else {
        spec_name_seed(s.drop_last()) + seed_char(s.last())
    }
}

/// Turns a title into its name seed: spaces to underscores, apostrophes out.
pub fn name_seed(title: &str) -> (r: String)
    ensures
        r@ == spec_name_seed(title@),
{
    let n = title.unicode_len();
    let mut r = String::new();
    let mut i: usize = 0;
    proof {
        assert(title@.subrange(0, 0) =~= Seq::<char>::empty());
    }
    while i < n
        invariant
            n == title@.len(),
            0 <= i <= n,
            r@ == spec_name_seed(title@.subrange(0, i as int)),
        decreases n - i,
    {
        let c = title.get_char(i);
        let ghost r0 = r@;
        if c == ' ' {
            r.append("_");
        } else if c == '\'' {
            // dropped
        } else {
            r.append(title.substring_char(i, i + 1));
        }
        proof {
            reveal_strlit("_");
            let taken = title@.subrange(0, i + 1);
            assert(taken.drop_last() =~= title@.subrange(0, i as int));
            assert(taken.last() == title@[i as int]);
            assert(title@.subrange(i as int, i + 1) =~= seq![title@[i as int]]);
            assert(r@ =~= r0 + seed_char(title@[i as int]));
        }
        i += 1;
    }
    proof {
        assert(title@.subrange(0, n as int) =~= title@);
    }
    r
}

/// Relies on `sanitize_filename::sanitize`: strips path separators, control
/// characters and other file-name hazards, and truncates the result to at
/// most 255 bytes.
#[verifier::external_body]
fn sanitize_name(s: &str) -> (r: String)
    ensures
        r@.len() <= 255,
{
    sanitize_filename::sanitize(s)
}

/// Derives the install name from a manifest title: `None` for an empty
/// title, else the sanitised name seed. What sanitising keeps is the
/// sanitiser's affair; whether the result is an acceptable addon name is
/// checked by the name validation, as for a hand-picked name.
pub fn autoinstall_name(title: &str) -> (r: Option<String>)
    ensures
        (title@.len() == 0) == (r is None),
        r matches Some(n) ==> n@.len() <= 255,
{
    if title.is_empty() {
        return None;
    }
    let seed = name_seed(title);
    Some(sanitize_name(seed.as_str()))
}

} // verus!
