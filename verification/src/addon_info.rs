//! The addon-manifest text decoder and field extractor.
//!
//! The manifest (`addoninfo.txt`) is scanned line by line, not parsed as a
//! structured document. A recognised line has the shape `KEY "VALUE"`: optional
//! leading whitespace, the key (optionally wrapped in double quotes), matched
//! without regard to ASCII case, one or more whitespace characters, then the
//! value between double quotes with no embedded quoting. For each key the
//! first matching line wins; a key never seen leaves its field at `"N/A"`.
//! The bytes are decoded as UTF-8 lossily, so invalid sequences never fail.

use vstd::prelude::*;
use crate::bytes::{ascii_bytes, ascii_seq, eq_ignore_case, matches_at_nocase, spec_lines,
    split_lines, sub_vec, to_lower};

verus! {

/// The three metadata fields of an addon manifest; each holds the extracted
/// value, or the literal `"N/A"` when the manifest does not name it.
#[derive(Debug, PartialEq, Eq)]
pub struct ExtractedData {
    pub title: String,
    pub version: String,
    pub description: String,
}

/// What `String::from_utf8_lossy` decodes the given bytes to.
pub uninterp spec fn utf8_lossy(bytes: Seq<u8>) -> Seq<char>;

/// Relies on `String::from_utf8_lossy`: decoding depends on the bytes alone;
/// valid UTF-8 decodes exactly, invalid sequences become replacement
/// characters rather than errors.
#[verifier::external_body]
fn decode_lossy(b: &Vec<u8>) -> (r: String)
    ensures
        r@ == utf8_lossy(b@),
        vstd::utf8::valid_utf8(b@) ==> r@ == vstd::utf8::decode_utf8(b@),
{
    String::from_utf8_lossy(b.as_slice()).into_owned()
}

/// ASCII whitespace, the separator class of a manifest line.
pub open spec fn is_ws(b: u8) -> bool {
    b == 0x20 || b == 0x09 || b == 0x0b || b == 0x0c || b == 0x0d
}

/// The first position at or after `i` holding a byte that is not whitespace,
/// or the end of the line.
pub open spec fn skip_ws(line: Seq<u8>, i: int) -> int
    recommends
        0 <= i <= line.len(),
    decreases line.len() - i when 0 <= i <= line.len()
{
    if i >= line.len() {
        i
    } else if is_ws(line[i]) {
        skip_ws(line, i + 1)
    } else {
        i
    }
}

/// Skipping whitespace stays in bounds, skips only whitespace, and stops at a
/// non-whitespace byte when one remains.
pub proof fn lemma_skip_ws(line: Seq<u8>, i: int)
    requires
        0 <= i <= line.len(),
    ensures
        i <= skip_ws(line, i) <= line.len(),
        forall|j: int| i <= j < skip_ws(line, i) ==> is_ws(line[j]),
        skip_ws(line, i) < line.len() ==> !is_ws(line[skip_ws(line, i)]),
    decreases line.len() - i,
{
    if i < line.len() && is_ws(line[i]) {
        lemma_skip_ws(line, i + 1);
    }
}

/// The position of the first double-quote byte at or after `i`, if any.
pub open spec fn find_quote(line: Seq<u8>, i: int) -> Option<int>
    recommends
        0 <= i <= line.len(),
    decreases line.len() - i when 0 <= i <= line.len()
{
    if i >= line.len() {
        None
    } else if line[i] == 0x22 {
        Some(i)
    } else {
        find_quote(line, i + 1)
    }
}

/// A found quote lies in bounds, is a quote, and is the first one.
pub proof fn lemma_find_quote(line: Seq<u8>, i: int)
    requires
        0 <= i <= line.len(),
    ensures
        match find_quote(line, i) {
            Some(m) => i <= m < line.len() && line[m] == 0x22 && forall|j: int|
                i <= j < m ==> line[j] != 0x22,
            None => forall|j: int| i <= j < line.len() ==> line[j] != 0x22,
        },
    decreases line.len() - i,
{
    if i < line.len() && line[i] != 0x22 {
        lemma_find_quote(line, i + 1);
    }
}

/// The quoted value that follows position `j` of the line: one or more
/// whitespace bytes, a double quote, the value bytes, a closing double quote.
pub open spec fn spec_value_after(line: Seq<u8>, j: int) -> Option<Seq<u8>>
    recommends
        0 <= j,
{
    if j < line.len() && is_ws(line[j]) {
        let k = skip_ws(line, j);
        if k < line.len() && line[k] == 0x22 {
            match find_quote(line, k + 1) {
                Some(m) => Some(line.subrange(k + 1, m)),
                None => None,
            }
        } else {
            None
        }
    } else {
        None
    }
}

/// The value a manifest line gives for `key`, if the line has the shape
/// `KEY "VALUE"`: optional leading whitespace, the key — bare, or wrapped in
/// double quotes — matched without regard to ASCII case, whitespace, then the
/// value between double quotes.
pub open spec fn spec_line_value(line: Seq<u8>, key: Seq<u8>) -> Option<Seq<u8>> {
    let i = skip_ws(line, 0);
    if i < line.len() && line[i] == 0x22 {
        if i + 1 + key.len() < line.len() && eq_ignore_case(
            line.subrange(i + 1, i + 1 + key.len()),
            key,
        ) && line[i + 1 + key.len()] == 0x22 {
            spec_value_after(line, i + key.len() + 2)
        } else {
            None
        }
    } else {
        if i + key.len() <= line.len() && eq_ignore_case(line.subrange(i, i + key.len()), key) {
            spec_value_after(line, i + key.len())
        } else {
            None
        }
    }
}

/// Exec test for ASCII whitespace.
fn ws_byte(b: u8) -> (r: bool)
    ensures
        r == is_ws(b),
{
    b == 0x20 || b == 0x09 || b == 0x0b || b == 0x0c || b == 0x0d
}

/// Advances past whitespace, as `skip_ws` describes.
fn skip_ws_from(line: &Vec<u8>, from: usize) -> (r: usize)
    requires
        from <= line@.len(),
    ensures
        from <= r <= line@.len(),
        r == skip_ws(line@, from as int),
{
    let n = line.len();
    let mut j = from;
    while j < n && ws_byte(line[j])
        invariant
            n == line@.len(),
            from <= j <= n,
            skip_ws(line@, from as int) == skip_ws(line@, j as int),
        decreases n - j,
    {
        proof {
            assert(skip_ws(line@, j as int) == skip_ws(line@, j + 1));
        }
        j += 1;
    }
    proof {
        assert(skip_ws(line@, j as int) == j);
        lemma_skip_ws(line@, from as int);
    }
    j
}

/// Extracts the value of a `KEY "VALUE"` line, as `spec_line_value` describes.
pub fn extract_value(line: &Vec<u8>, key: &Vec<u8>) -> (r: Option<Vec<u8>>)
    ensures
        match r {
            Some(v) => spec_line_value(line@, key@) == Some(v@),
            None => spec_line_value(line@, key@) is None,
        },
{
    let n = line.len();
    let klen = key.len();
    let i = skip_ws_from(line, 0);
    // the position just past the key, when the key is present at i
    let j: usize;
    if i < n && line[i] == 0x22 {
        if klen < n - i - 1 && matches_at_nocase(line, key, i + 1) && line[i + 1 + klen] == 0x22 {
            j = i + klen + 2;
        } else {
            return None;
        }
    } else {
        if klen <= n - i && matches_at_nocase(line, key, i) {
            j = i + klen;
        } else {
            return None;
        }
    }
    if !(j < n && ws_byte(line[j])) {
        return None;
    }
    let k = skip_ws_from(line, j);
    if !(k < n && line[k] == 0x22) {
        return None;
    }
    // find the closing quote
    let mut m = k + 1;
    while m < n && line[m] != 0x22
        invariant
            n == line@.len(),
            k + 1 <= m <= n,
            forall|q: int| k + 1 <= q < m ==> line@[q] != 0x22,
        decreases n - m,
    {
        m += 1;
    }
    proof {
        lemma_find_quote(line@, k + 1);
        if m < n {
            assert(find_quote(line@, k + 1) == Some(m as int));
        } else {
            assert(find_quote(line@, k + 1) is None);
        }
    }
    if m == n {
        return None;
    }
    Some(sub_vec(line, k + 1, m))
}

/// The key naming the addon's title, as manifest bytes.
pub open spec fn key_title() -> Seq<u8> {
    ascii_seq("addonTitle"@)
}

/// The key naming the addon's version, as manifest bytes.
pub open spec fn key_version() -> Seq<u8> {
    ascii_seq("addonVersion"@)
}

/// The key naming the addon's description, as manifest bytes.
pub open spec fn key_description() -> Seq<u8> {
    ascii_seq("addonDescription"@)
}

/// The title key as a vector.
pub fn title_key() -> (k: Vec<u8>)
    ensures
        k@ == key_title(),
{
    proof {
        reveal_strlit("addonTitle");
    }
    ascii_bytes("addonTitle")
}

/// The version key as a vector.
pub fn version_key() -> (k: Vec<u8>)
    ensures
        k@ == key_version(),
{
    proof {
        reveal_strlit("addonVersion");
    }
    ascii_bytes("addonVersion")
}

/// The description key as a vector.
pub fn description_key() -> (k: Vec<u8>)
    ensures
        k@ == key_description(),
{
    proof {
        reveal_strlit("addonDescription");
    }
    ascii_bytes("addonDescription")
}

/// The value of the first line that gives one for `key`: the first matching
/// line of the document wins, later duplicates are ignored.
pub open spec fn first_value(lines: Seq<Seq<u8>>, key: Seq<u8>) -> Option<Seq<u8>>
    decreases lines.len(),
{
    if lines.len() == 0 {
        None
    } else {
        match spec_line_value(lines[0], key) {
            Some(v) => Some(v),
            None => first_value(lines.drop_first(), key),
        }
    }
}

/// Extending the scanned prefix by one line either keeps an already-found
/// value or takes the new line's value: first match wins.
proof fn lemma_first_value_extend(lines: Seq<Seq<u8>>, key: Seq<u8>, i: int)
    requires
        0 <= i < lines.len(),
    ensures
        first_value(lines.take(i + 1), key) == match first_value(lines.take(i), key) {
            Some(v) => Some(v),
            None => spec_line_value(lines[i], key),
        },
    decreases lines.len(),
{
    if i == 0 {
        assert(lines.take(0) =~= Seq::<Seq<u8>>::empty());
        assert(lines.take(1).drop_first() =~= Seq::<Seq<u8>>::empty());
        assert(lines.take(1)[0] == lines[0]);
    } else {
        let rest = lines.drop_first();
        lemma_first_value_extend(rest, key, i - 1);
        assert(lines.take(i + 1).drop_first() =~= rest.take(i));
        assert(lines.take(i).drop_first() =~= rest.take(i - 1));
        assert(lines.take(i + 1)[0] == lines[0]);
        assert(lines.take(i)[0] == lines[0]);
        assert(rest[i - 1] == lines[i]);
    }
}

/// Two bytes equal up to ASCII case agree on being whitespace and on being a
/// double quote: case folding moves only letters.
proof fn lemma_same_class(x: u8, y: u8)
    requires
        to_lower(x) == to_lower(y),
    ensures
        is_ws(x) == is_ws(y),
        (x == 0x22) == (y == 0x22),
{
}

/// Case-equal sequences compare equally, up to case, against any third.
proof fn lemma_eqic_trans(a: Seq<u8>, b: Seq<u8>, c: Seq<u8>)
    requires
        eq_ignore_case(a, b),
    ensures
        eq_ignore_case(a, c) == eq_ignore_case(b, c),
{
    if eq_ignore_case(a, c) {
        assert forall|i: int| 0 <= i < b.len() implies to_lower(b[i]) == to_lower(c[i]) by {
            assert(to_lower(a[i]) == to_lower(b[i]));
        }
    }
    if eq_ignore_case(b, c) {
        assert forall|i: int| 0 <= i < a.len() implies to_lower(a[i]) == to_lower(c[i]) by {
            assert(to_lower(a[i]) == to_lower(b[i]));
        }
    }
}

/// Case-equal lines skip whitespace to the same position.
proof fn lemma_skip_ws_eqic(l1: Seq<u8>, l2: Seq<u8>, i: int)
    requires
        eq_ignore_case(l1, l2),
        0 <= i <= l1.len(),
    ensures
        skip_ws(l1, i) == skip_ws(l2, i),
    decreases l1.len() - i,
{
    if i < l1.len() {
        assert(to_lower(l1[i]) == to_lower(l2[i]));
        lemma_same_class(l1[i], l2[i]);
        if is_ws(l1[i]) {
            lemma_skip_ws_eqic(l1, l2, i + 1);
        }
    }
}

/// Case-equal lines have their first double quote at the same position.
proof fn lemma_find_quote_eqic(l1: Seq<u8>, l2: Seq<u8>, i: int)
    requires
        eq_ignore_case(l1, l2),
        0 <= i <= l1.len(),
    ensures
        find_quote(l1, i) == find_quote(l2, i),
    decreases l1.len() - i,
{
    if i < l1.len() {
        assert(to_lower(l1[i]) == to_lower(l2[i]));
        lemma_same_class(l1[i], l2[i]);
        if l1[i] != 0x22 {
            lemma_find_quote_eqic(l1, l2, i + 1);
        }
    }
}

/// Case-equal lines agree on the quoted value after a position: both have
/// none, or the values are equal up to ASCII case.
proof fn lemma_value_after_eqic(l1: Seq<u8>, l2: Seq<u8>, j: int)
    requires
        eq_ignore_case(l1, l2),
        0 <= j,
    ensures
        match (spec_value_after(l1, j), spec_value_after(l2, j)) {
            (Some(v1), Some(v2)) => eq_ignore_case(v1, v2),
            (None, None) => true,
            _ => false,
        },
{
    if j < l1.len() {
        assert(to_lower(l1[j]) == to_lower(l2[j]));
        lemma_same_class(l1[j], l2[j]);
        if is_ws(l1[j]) {
            lemma_skip_ws_eqic(l1, l2, j);
            let k = skip_ws(l1, j);
            lemma_skip_ws(l1, j);
            if k < l1.len() {
                assert(to_lower(l1[k]) == to_lower(l2[k]));
                lemma_same_class(l1[k], l2[k]);
                if l1[k] == 0x22 {
                    lemma_find_quote_eqic(l1, l2, k + 1);
                    lemma_find_quote(l1, k + 1);
                    match find_quote(l1, k + 1) {
                        Some(m) => {
                            let v1 = l1.subrange(k + 1, m);
                            let v2 = l2.subrange(k + 1, m);
                            assert forall|q: int| 0 <= q < v1.len() implies to_lower(v1[q])
                                == to_lower(v2[q]) by {
                                assert(to_lower(l1[k + 1 + q]) == to_lower(l2[k + 1 + q]));
                            }
                        },
                        None => {},
                    }
                }
            }
        }
    }
}

/// ASCII case never decides a match: keys equal up to case extract the same
/// value from every line.
pub proof fn lemma_case_insensitive_key(line: Seq<u8>, k1: Seq<u8>, k2: Seq<u8>)
    requires
        eq_ignore_case(k1, k2),
    ensures
        spec_line_value(line, k1) == spec_line_value(line, k2),
{
    let i = skip_ws(line, 0);
    lemma_skip_ws(line, 0);
    if i < line.len() && line[i] == 0x22 {
        if i + 1 + k1.len() < line.len() {
            lemma_eqic_trans(k1, k2, line.subrange(i + 1, i + 1 + k1.len()));
            assert(eq_ignore_case(line.subrange(i + 1, i + 1 + k1.len()), k1) == eq_ignore_case(
                k1,
                line.subrange(i + 1, i + 1 + k1.len()),
            ));
            assert(eq_ignore_case(line.subrange(i + 1, i + 1 + k2.len()), k2) == eq_ignore_case(
                k2,
                line.subrange(i + 1, i + 1 + k2.len()),
            ));
        }
    } else {
        if i + k1.len() <= line.len() {
            lemma_eqic_trans(k1, k2, line.subrange(i, i + k1.len()));
            assert(eq_ignore_case(line.subrange(i, i + k1.len()), k1) == eq_ignore_case(
                k1,
                line.subrange(i, i + k1.len()),
            ));
            assert(eq_ignore_case(line.subrange(i, i + k2.len()), k2) == eq_ignore_case(
                k2,
                line.subrange(i, i + k2.len()),
            ));
        }
    }
}

/// ASCII case never decides a match on the line side either: lines equal up
/// to case give a value for a key together or not at all, and the values they
/// give are equal up to case. In particular `ADDONTITLE "Foo"` and
/// `addontitle "Foo"` both populate the title.
pub proof fn lemma_case_insensitive_line(l1: Seq<u8>, l2: Seq<u8>, key: Seq<u8>)
    requires
        eq_ignore_case(l1, l2),
    ensures
        match (spec_line_value(l1, key), spec_line_value(l2, key)) {
            (Some(v1), Some(v2)) => eq_ignore_case(v1, v2),
            (None, None) => true,
            _ => false,
        },
{
    lemma_skip_ws_eqic(l1, l2, 0);
    let i = skip_ws(l1, 0);
    lemma_skip_ws(l1, 0);
    if i < l1.len() {
        assert(to_lower(l1[i]) == to_lower(l2[i]));
        lemma_same_class(l1[i], l2[i]);
    }
    if i < l1.len() && l1[i] == 0x22 {
        if i + 1 + key.len() < l1.len() {
            let s1 = l1.subrange(i + 1, i + 1 + key.len());
            let s2 = l2.subrange(i + 1, i + 1 + key.len());
            assert forall|q: int| 0 <= q < s1.len() implies to_lower(s1[q]) == to_lower(
                s2[q],
            ) by {
                assert(to_lower(l1[i + 1 + q]) == to_lower(l2[i + 1 + q]));
            }
            lemma_eqic_trans(s1, s2, key);
            assert(to_lower(l1[i + 1 + key.len()]) == to_lower(l2[i + 1 + key.len()]));
            lemma_same_class(l1[i + 1 + key.len()], l2[i + 1 + key.len()]);
            if eq_ignore_case(s1, key) && l1[i + 1 + key.len()] == 0x22 {
                lemma_value_after_eqic(l1, l2, i + key.len() + 2);
            }
        }
    } else {
        if i + key.len() <= l1.len() {
            let s1 = l1.subrange(i, i + key.len());
            let s2 = l2.subrange(i, i + key.len());
            assert forall|q: int| 0 <= q < s1.len() implies to_lower(s1[q]) == to_lower(
                s2[q],
            ) by {
                assert(to_lower(l1[i + q]) == to_lower(l2[i + q]));
            }
            lemma_eqic_trans(s1, s2, key);
            if eq_ignore_case(s1, key) {
                lemma_value_after_eqic(l1, l2, i + key.len());
            }
        }
    }
}

/// One field of the result: the lossy decoding of the first value found for
/// `key`, or the literal `"N/A"` when no line gives one.
pub open spec fn field_from(lines: Seq<Seq<u8>>, key: Seq<u8>, field: Seq<char>) -> bool {
    match first_value(lines, key) {
        Some(v) => field == utf8_lossy(v),
        None => field == "N/A"@,
    }
}

/// The string `"N/A"`, the default for a missing field.
fn na_string() -> (s: String)
    ensures
        s@ == "N/A"@,
{
    String::from_str("N/A")
}

/// Decodes manifest bytes and extracts the three metadata fields.
///
/// The content is split into lines; for each of the three keys the first line
/// of the shape `KEY "VALUE"` (key matched without regard to ASCII case) gives
/// the field's value, decoded as lossy UTF-8; fields never named default to
/// `"N/A"`. Absence of any or all fields is not an error.
pub fn extract_fields(content: &Vec<u8>) -> (r: ExtractedData)
    ensures
        field_from(spec_lines(content@), key_title(), r.title@),
        field_from(spec_lines(content@), key_version(), r.version@),
        field_from(spec_lines(content@), key_description(), r.description@),
{
    let lines = split_lines(content);
    let ghost dv = lines.deep_view();
    let tkey = title_key();
    let vkey = version_key();
    let dkey = description_key();
    let mut title: Option<Vec<u8>> = None;
    let mut version: Option<Vec<u8>> = None;
    let mut description: Option<Vec<u8>> = None;
    let n = lines.len();
    proof {
        assert(dv.take(0) =~= Seq::<Seq<u8>>::empty());
    }
    let mut i: usize = 0;
    while i < n
        invariant
            n == lines@.len(),
            dv == lines.deep_view(),
            tkey@ == key_title(),
            vkey@ == key_version(),
            dkey@ == key_description(),
            0 <= i <= n,
            match title {
                Some(ref v) => first_value(dv.take(i as int), key_title()) == Some(v@),
                None => first_value(dv.take(i as int), key_title()) is None,
            },
            match version {
                Some(ref v) => first_value(dv.take(i as int), key_version()) == Some(v@),
                None => first_value(dv.take(i as int), key_version()) is None,
            },
            match description {
                Some(ref v) => first_value(dv.take(i as int), key_description()) == Some(v@),
                None => first_value(dv.take(i as int), key_description()) is None,
            },
        decreases n - i,
    {
        proof {
            assert(dv[i as int] == lines@[i as int]@);
            lemma_first_value_extend(dv, key_title(), i as int);
            lemma_first_value_extend(dv, key_version(), i as int);
            lemma_first_value_extend(dv, key_description(), i as int);
        }
        if title.is_none() {
            if let Some(v) = extract_value(&lines[i], &tkey) {
                title = Some(v);
            }
        }
        if version.is_none() {
            if let Some(v) = extract_value(&lines[i], &vkey) {
                version = Some(v);
            }
        }
        if description.is_none() {
            if let Some(v) = extract_value(&lines[i], &dkey) {
                description = Some(v);
            }
        }
        i += 1;
    }
    proof {
        assert(dv.take(n as int) =~= dv);
    }
    let title_s = match &title {
        Some(v) => decode_lossy(v),
        None => na_string(),
    };
    let version_s = match &version {
        Some(v) => decode_lossy(v),
        None => na_string(),
    };
    let description_s = match &description {
        Some(v) => decode_lossy(v),
        None => na_string(),
    };
    ExtractedData { title: title_s, version: version_s, description: description_s }
}

} // verus!
