//! Byte-sequence utilities shared by the VPK reader and the gameinfo editor:
//! equality and substring search, ASCII case folding, line splitting and
//! joining, and little-endian integer reads.

use vstd::prelude::*;

verus! {

/// The byte sequence of an ASCII string, one byte per character.
pub open spec fn ascii_seq(cs: Seq<char>) -> Seq<u8> {
    Seq::new(cs.len(), |i: int| cs[i] as u8)
}

/// Bytes of an ASCII string slice, as a fresh vector.
pub fn ascii_bytes(s: &str) -> (v: Vec<u8>)
    requires
        s.is_ascii(),
    ensures
        v@ == ascii_seq(s@),
{
    proof {
        broadcast use vstd::string::is_ascii_spec_bytes;

    }
    let v = s.as_bytes_vec();
    assert(v@ =~= ascii_seq(s@));
    v
}

/// Exact byte-for-byte equality of two vectors.
pub fn bytes_eq(a: &Vec<u8>, b: &Vec<u8>) -> (r: bool)
    ensures
        r == (a@ == b@),
{
    if a.len() != b.len() {
        assert(a@ != b@);
        return false;
    }
    let n = a.len();
    let mut i: usize = 0;
    while i < n
        invariant
            n == a@.len() == b@.len(),
            0 <= i <= n,
            forall|j: int| 0 <= j < i ==> a@[j] == b@[j],
        decreases n - i,
    {
        if a[i] != b[i] {
            return false;
        }
        i += 1;
    }
    assert(a@ =~= b@);
    true
}

/// The needle `n` occurs in `h` starting at position `i`.
pub open spec fn contains_at(h: Seq<u8>, n: Seq<u8>, i: int) -> bool {
    0 <= i && i + n.len() <= h.len() && h.subrange(i, i + n.len()) == n
}

/// The needle `n` occurs somewhere in `h`.
pub open spec fn contains_sub(h: Seq<u8>, n: Seq<u8>) -> bool {
    exists|i: int| contains_at(h, n, i)
}

/// Whether `n` occurs at position `i` of `h`; positions past the end give false.
pub fn matches_at(h: &Vec<u8>, n: &Vec<u8>, i: usize) -> (r: bool)
    ensures
        r == contains_at(h@, n@, i as int),
{
    let hn = h.len();
    let nn = n.len();
    if nn > hn || i > hn - nn {
        return false;
    }
    let mut j: usize = 0;
    while j < nn
        invariant
            hn == h@.len(),
            nn == n@.len(),
            i + nn <= hn,
            0 <= j <= nn,
            forall|k: int| 0 <= k < j ==> h@[i + k] == n@[k],
        decreases nn - j,
    {
        if h[i + j] != n[j] {
            assert(h@.subrange(i as int, i + n@.len())[j as int] != n@[j as int]);
            return false;
        }
        j += 1;
    }
    assert(h@.subrange(i as int, i + n@.len()) =~= n@);
    true
}

/// Substring search: does `n` occur anywhere in `h`?
pub fn find_sub(h: &Vec<u8>, n: &Vec<u8>) -> (r: bool)
    ensures
        r == contains_sub(h@, n@),
{
    if n.len() > h.len() {
        return false;
    }
    let last = h.len() - n.len();
    let mut i: usize = 0;
    loop
        invariant
            n@.len() <= h@.len(),
            last == h@.len() - n@.len(),
            0 <= i <= last,
            forall|k: int| 0 <= k < i ==> !contains_at(h@, n@, k),
        decreases last - i,
    {
        if matches_at(h, n, i) {
            return true;
        }
        if i == last {
            return false;
        }
        i += 1;
    }
}

/// A copy of `b[from..to]`.
pub fn sub_vec(b: &Vec<u8>, from: usize, to: usize) -> (r: Vec<u8>)
    requires
        from <= to <= b@.len(),
    ensures
        r@ == b@.subrange(from as int, to as int),
{
    let mut r: Vec<u8> = Vec::new();
    let mut i: usize = from;
    while i < to
        invariant
            from <= i <= to <= b@.len(),
            r@ == b@.subrange(from as int, i as int),
        decreases to - i,
    {
        r.push(b[i]);
        assert(r@ =~= b@.subrange(from as int, i + 1));
        i += 1;
    }
    r
}

/// Appends all of `src` to `dst`.
pub fn push_all(dst: &mut Vec<u8>, src: &Vec<u8>)
    ensures
        final(dst)@ == old(dst)@ + src@,
{
    let mut i: usize = 0;
    while i < src.len()
        invariant
            0 <= i <= src@.len(),
            dst@ == old(dst)@ + src@.subrange(0, i as int),
        decreases src@.len() - i,
    {
        dst.push(src[i]);
        assert(dst@ =~= old(dst)@ + src@.subrange(0, i + 1));
        i += 1;
    }
    assert(dst@ =~= old(dst)@ + src@);
}

/// ASCII lower-casing of one byte: `A`..`Z` map to `a`..`z`.
pub open spec fn to_lower(b: u8) -> u8 {
    if 0x41 <= b <= 0x5a {
        (b + 0x20) as u8
    } else {
        b
    }
}

/// Equality of two byte sequences up to ASCII case.
pub open spec fn eq_ignore_case(a: Seq<u8>, b: Seq<u8>) -> bool {
    a.len() == b.len() && forall|i: int| 0 <= i < a.len() ==> to_lower(a[i]) == to_lower(b[i])
}

/// Whether `h[i..i+n.len()]` equals `n` up to ASCII case.
pub fn matches_at_nocase(h: &Vec<u8>, n: &Vec<u8>, i: usize) -> (r: bool)
    requires
        i + n@.len() <= h@.len(),
    ensures
        r == eq_ignore_case(h@.subrange(i as int, i + n@.len()), n@),
{
    let ghost sub = h@.subrange(i as int, i + n@.len());
    let hn = h.len();
    let nn = n.len();
    let mut j: usize = 0;
    while j < nn
        invariant
            hn == h@.len(),
            nn == n@.len(),
            i + nn <= hn,
            sub == h@.subrange(i as int, i + n@.len()),
            0 <= j <= nn,
            forall|k: int| 0 <= k < j ==> to_lower(sub[k]) == to_lower(n@[k]),
        decreases nn - j,
    {
        let hb = h[i + j];
        let nb = n[j];
        let hl: u8 = if 0x41 <= hb && hb <= 0x5a {
            hb + 0x20
        } else {
            hb
        };
        let nl: u8 = if 0x41 <= nb && nb <= 0x5a {
            nb + 0x20
        } else {
            nb
        };
        if hl != nl {
            assert(sub[j as int] == h@[i + j]);
            return false;
        }
        assert(sub[j as int] == h@[i + j]);
        j += 1;
    }
    true
}


/// One trailing carriage return stripped, as `str::lines` does at a line end.
pub open spec fn strip_cr(s: Seq<u8>) -> Seq<u8> {
    if s.len() > 0 && s[s.len() - 1] == 0x0d {
        s.drop_last()
    } else {
        s
    }
}

/// The position of the first newline byte at or after `i`, if any.
pub open spec fn find_nl(s: Seq<u8>, i: int) -> Option<int>
    recommends
        0 <= i <= s.len(),
    decreases s.len() - i when 0 <= i <= s.len()
{
    if i >= s.len() {
        None
    } else if s[i] == 0x0a {
        Some(i)
    } else {
        find_nl(s, i + 1)
    }
}

/// A found newline lies in bounds, is a newline, and is the first one.
pub proof fn lemma_find_nl_bounds(s: Seq<u8>, i: int)
    requires
        0 <= i <= s.len(),
    ensures
        match find_nl(s, i) {
            Some(k) => i <= k < s.len() && s[k] == 0x0a && forall|j: int|
                i <= j < k ==> s[j] != 0x0a,
            None => forall|j: int| i <= j < s.len() ==> s[j] != 0x0a,
        },
    decreases s.len() - i,
{
    if i < s.len() && s[i] != 0x0a {
        lemma_find_nl_bounds(s, i + 1);
    }
}

/// The lines of `s`: split at each newline, one trailing carriage return
/// removed from every segment that a newline terminated, and a final empty
/// segment dropped - the behaviour of `str::lines`.
pub open spec fn spec_lines(s: Seq<u8>) -> Seq<Seq<u8>>
    decreases s.len(),
    when s.len() >= 0 via spec_lines_dec
{
    match find_nl(s, 0) {
        Some(k) => seq![strip_cr(s.subrange(0, k))] + spec_lines(
            s.subrange(k + 1, s.len() as int),
        ),
        None => if s.len() == 0 {
            seq![]
        } else {
            seq![s]
        },
    }
}

#[via_fn]
proof fn spec_lines_dec(s: Seq<u8>) {
    lemma_find_nl_bounds(s, 0);
}

/// Splits a byte buffer into its lines, as `str::lines` splits text.
pub fn split_lines(content: &Vec<u8>) -> (r: Vec<Vec<u8>>)
    ensures
        r.deep_view() == spec_lines(content@),
{
    let mut r: Vec<Vec<u8>> = Vec::new();
    let mut start: usize = 0;
    let n = content.len();
    proof {
        assert(content@.subrange(0, n as int) =~= content@);
        assert(r.deep_view() + spec_lines(content@) =~~= spec_lines(content@));
    }
    loop
        invariant
            n == content@.len(),
            0 <= start <= n,
            spec_lines(content@) == r.deep_view() + spec_lines(
                content@.subrange(start as int, n as int),
            ),
        decreases n - start,
    {
        let ghost rest = content@.subrange(start as int, n as int);
        // find the next newline
        let mut k: usize = start;
        while k < n && content[k] != 0x0a
            invariant
                n == content@.len(),
                start <= k <= n,
                forall|j: int| start <= j < k ==> content@[j] != 0x0a,
            decreases n - k,
        {
            k += 1;
        }
        proof {
            lemma_find_nl_bounds(rest, 0);
            if k < n {
                assert(rest[k - start] == 0x0a);
                assert(find_nl(rest, 0) == Some(k - start as int));
            } else {
                assert(find_nl(rest, 0) is None);
            }
        }
        if k == n {
            if start < n {
                let line = sub_vec(content, start, n);
                let ghost old_r = r.deep_view();
                proof {
                    assert(spec_lines(rest) =~= seq![rest]);
                    assert(line@ =~= rest);
                }
                r.push(line);
                proof {
                    assert(r.deep_view() =~~= old_r + spec_lines(rest));
                }
            } else {
                assert(spec_lines(rest) =~= Seq::<Seq<u8>>::empty());
                assert(r.deep_view() + Seq::<Seq<u8>>::empty() =~~= r.deep_view());
            }
            return r;
        }
        // strip one trailing carriage return
        let end = if k > start && content[k - 1] == 0x0d {
            k - 1
        } else {
            k
        };
        let line = sub_vec(content, start, end);
        let ghost tail = content@.subrange(k + 1, n as int);
        proof {
            let raw = rest.subrange(0, k - start as int);
            assert(raw =~= content@.subrange(start as int, k as int));
            if k > start && content@[k as int - 1] == 0x0d {
                assert(strip_cr(raw) =~= content@.subrange(start as int, k as int - 1));
            } else {
                assert(strip_cr(raw) =~= content@.subrange(start as int, k as int));
            }
            assert(line@ == strip_cr(raw));
            assert(rest.subrange(k - start + 1, rest.len() as int) =~= tail);
            assert(spec_lines(rest) == seq![line@] + spec_lines(tail));
        }
        let ghost old_r = r.deep_view();
        r.push(line);
        proof {
            assert(r.deep_view() =~~= old_r + seq![line@]);
            assert(old_r + (seq![line@] + spec_lines(tail)) =~= (old_r + seq![line@])
                + spec_lines(tail));
        }
        start = k + 1;
    }
}

/// The tail of a join: a newline before each remaining line.
pub open spec fn spec_join_rest(lines: Seq<Seq<u8>>) -> Seq<u8>
    decreases lines.len(),
{
    if lines.len() == 0 {
        seq![]
    } else {
        seq![0x0au8] + lines[0] + spec_join_rest(lines.drop_first())
    }
}

/// The lines joined with a newline between each pair, no trailing newline.
pub open spec fn spec_join_lines(lines: Seq<Seq<u8>>) -> Seq<u8> {
    if lines.len() == 0 {
        seq![]
    } else {
        lines[0] + spec_join_rest(lines.drop_first())
    }
}

/// Joins lines with single newlines, as `[&str]::join("\n")` does.
pub fn join_lines(lines: &Vec<Vec<u8>>) -> (r: Vec<u8>)
    ensures
        r@ == spec_join_lines(lines.deep_view()),
{
    let mut r: Vec<u8> = Vec::new();
    let n = lines.len();
    if n == 0 {
        assert(r@ =~= spec_join_lines(lines.deep_view()));
        return r;
    }
    let ghost dv = lines.deep_view();
    push_all(&mut r, &lines[0]);
    proof {
        assert(dv[0] == lines@[0]@);
        assert(r@ =~= dv[0]);
        assert(dv.subrange(1, n as int) =~= dv.drop_first());
    }
    let mut i: usize = 1;
    while i < n
        invariant
            n == lines@.len(),
            dv == lines.deep_view(),
            1 <= i <= n,
            spec_join_lines(dv) == r@ + spec_join_rest(dv.subrange(i as int, n as int)),
        decreases n - i,
    {
        let ghost r0 = r@;
        let ghost rest = dv.subrange(i as int, n as int);
        r.push(0x0a);
        push_all(&mut r, &lines[i]);
        proof {
            assert(rest[0] == dv[i as int]);
            assert(dv[i as int] == lines@[i as int]@);
            assert(rest.drop_first() =~= dv.subrange(i + 1, n as int));
            assert(r@ =~= r0 + (seq![0x0au8] + lines@[i as int]@));
            assert(r0 + (seq![0x0au8] + rest[0] + spec_join_rest(rest.drop_first())) =~= (r0
                + (seq![0x0au8] + rest[0])) + spec_join_rest(rest.drop_first()));
        }
        i += 1;
    }
    proof {
        assert(dv.subrange(n as int, n as int) =~= Seq::<Seq<u8>>::empty());
        assert(r@ + Seq::<u8>::empty() =~= r@);
    }
    r
}

/// The little-endian 16-bit value of `b[i..i+2]`.
pub open spec fn le16_at(b: Seq<u8>, i: int) -> int {
    b[i] + 0x100 * b[i + 1]
}

/// The little-endian 32-bit value of `b[i..i+4]`.
pub open spec fn le32_at(b: Seq<u8>, i: int) -> int {
    b[i] + 0x100 * b[i + 1] + 0x1_0000 * b[i + 2] + 0x100_0000 * b[i + 3]
}

/// Reads the little-endian 16-bit integer at `b[i..i+2]`.
pub fn read_le16(b: &Vec<u8>, i: usize) -> (r: u16)
    requires
        i + 2 <= b@.len(),
    ensures
        r == le16_at(b@, i as int),
{
    let _n = b.len();
    b[i] as u16 + 0x100 * (b[i + 1] as u16)
}

/// Reads the little-endian 32-bit integer at `b[i..i+4]`.
pub fn read_le32(b: &Vec<u8>, i: usize) -> (r: u32)
    requires
        i + 4 <= b@.len(),
    ensures
        r == le32_at(b@, i as int),
{
    let _n = b.len();
    b[i] as u32 + 0x100 * (b[i + 1] as u32) + 0x1_0000 * (b[i + 2] as u32) + 0x100_0000 * (b[i
        + 3] as u32)
}

} // verus!
