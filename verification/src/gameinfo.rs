//! The gameinfo.txt editing rules.
//!
//! An installed addon is one `Game` line inside the file's `SearchPaths`
//! block. Installing inserts `\t\t\tGame\t\t\t\t<name>` above the first line
//! naming both `Game` and `update`; uninstalling removes the first line
//! naming both `Game` and the addon; renaming replaces that line in place.
//! The core game's own search paths are recognised by a fixed list of markers
//! and are never touched. These functions edit lines handed to them as plain
//! byte strings and return the edited lines; reading and writing the file is
//! the caller's business.

use vstd::prelude::*;
use crate::bytes::{ascii_bytes, ascii_seq, contains_at, contains_sub, find_sub, matches_at,
    push_all, sub_vec};

verus! {

/// The marker of an addon search-path line.
pub open spec fn game_marker() -> Seq<u8> {
    ascii_seq("Game"@)
}

/// The marker of the core `update` search path, above which addons are
/// inserted.
pub open spec fn update_marker() -> Seq<u8> {
    ascii_seq("update"@)
}

/// The marker opening the search-path block.
pub open spec fn searchpaths_marker() -> Seq<u8> {
    ascii_seq("SearchPaths"@)
}

/// The `Game` marker as a vector.
pub fn game_marker_bytes() -> (v: Vec<u8>)
    ensures
        v@ == game_marker(),
{
    proof {
        reveal_strlit("Game");
    }
    ascii_bytes("Game")
}

/// The `update` marker as a vector.
pub fn update_marker_bytes() -> (v: Vec<u8>)
    ensures
        v@ == update_marker(),
{
    proof {
        reveal_strlit("update");
    }
    ascii_bytes("update")
}

/// A byte string mentions one of the core game's own search paths, which are
/// never installed, uninstalled or renamed.
pub open spec fn spec_excluded(h: Seq<u8>) -> bool {
    contains_sub(h, ascii_seq("update"@)) || contains_sub(h, ascii_seq("left4dead2_dlc3"@))
        || contains_sub(h, ascii_seq("left4dead2_dlc2"@)) || contains_sub(
        h,
        ascii_seq("left4dead2_dlc1"@),
    ) || contains_sub(h, ascii_seq("hl2"@)) || contains_sub(h, ascii_seq("|gameinfo_path|."@))
}

/// Whether a name or line mentions a core search path.
pub fn excluded_in(h: &Vec<u8>) -> (r: bool)
    ensures
        r == spec_excluded(h@),
{
    proof {
        reveal_strlit("update");
        reveal_strlit("left4dead2_dlc3");
        reveal_strlit("left4dead2_dlc2");
        reveal_strlit("left4dead2_dlc1");
        reveal_strlit("hl2");
        reveal_strlit("|gameinfo_path|.");
    }
    find_sub(h, &ascii_bytes("update")) || find_sub(h, &ascii_bytes("left4dead2_dlc3")) || find_sub(
        h,
        &ascii_bytes("left4dead2_dlc2"),
    ) || find_sub(h, &ascii_bytes("left4dead2_dlc1")) || find_sub(h, &ascii_bytes("hl2"))
        || find_sub(h, &ascii_bytes("|gameinfo_path|."))
}

/// The first line at or after `i` that contains both `a` and `b`.
pub open spec fn spec_find_line(lines: Seq<Seq<u8>>, a: Seq<u8>, b: Seq<u8>, i: int) -> Option<int>
    recommends
        0 <= i <= lines.len(),
    decreases lines.len() - i when 0 <= i <= lines.len()
{
    if i >= lines.len() {
        None
    } else if contains_sub(lines[i], a) && contains_sub(lines[i], b) {
        Some(i)
    } else {
        spec_find_line(lines, a, b, i + 1)
    }
}

/// A found line lies in bounds, matches, and is the first match.
pub proof fn lemma_find_line(lines: Seq<Seq<u8>>, a: Seq<u8>, b: Seq<u8>, i: int)
    requires
        0 <= i <= lines.len(),
    ensures
        match spec_find_line(lines, a, b, i) {
            Some(k) => i <= k < lines.len() && contains_sub(lines[k], a) && contains_sub(
                lines[k],
                b,
            ),
            None => forall|j: int|
                i <= j < lines.len() ==> !(contains_sub(lines[j], a) && contains_sub(lines[j], b)),
        },
    decreases lines.len() - i,
{
    if i < lines.len() && !(contains_sub(lines[i], a) && contains_sub(lines[i], b)) {
        lemma_find_line(lines, a, b, i + 1);
    }
}

/// Finds the first line containing both `a` and `b`.
pub fn find_line(lines: &Vec<Vec<u8>>, a: &Vec<u8>, b: &Vec<u8>) -> (r: Option<usize>)
    ensures
        match r {
            Some(k) => spec_find_line(lines.deep_view(), a@, b@, 0) == Some(k as int),
            None => spec_find_line(lines.deep_view(), a@, b@, 0) is None,
        },
{
    let ghost dv = lines.deep_view();
    let n = lines.len();
    let mut i: usize = 0;
    while i < n
        invariant
            n == lines@.len(),
            dv == lines.deep_view(),
            0 <= i <= n,
            spec_find_line(dv, a@, b@, 0) == spec_find_line(dv, a@, b@, i as int),
        decreases n - i,
    {
        proof {
            assert(dv[i as int] == lines@[i as int]@);
        }
        if find_sub(&lines[i], a) && find_sub(&lines[i], b) {
            proof {
                assert(spec_find_line(dv, a@, b@, i as int) == Some(i as int));
            }
            return Some(i);
        }
        proof {
            assert(spec_find_line(dv, a@, b@, i as int) == spec_find_line(dv, a@, b@, i + 1));
        }
        i += 1;
    }
    proof {
        assert(spec_find_line(dv, a@, b@, n as int) is None);
    }
    None
}

/// The search-path line of an addon: three tabs, `Game`, four tabs, the name.
pub open spec fn spec_game_line(name: Seq<u8>) -> Seq<u8> {
    ascii_seq("\t\t\tGame\t\t\t\t"@) + name
}

/// Builds the search-path line that installs an addon.
pub fn game_line(name: &Vec<u8>) -> (r: Vec<u8>)
    ensures
        r@ == spec_game_line(name@),
{
    proof {
        reveal_strlit("\t\t\tGame\t\t\t\t");
    }
    let mut r = ascii_bytes("\t\t\tGame\t\t\t\t");
    push_all(&mut r, name);
    r
}

/// What installing changed: an already-listed addon whose directory existed
/// was updated in place, otherwise the new line's insertion gives new lines.
#[derive(Debug)]
pub enum InstallOutcome {
    /// The addon was already listed and its directory existed: nothing to
    /// edit, the copied archive replaced the old one.
    Updated,
    /// The edited lines, with the addon's line inserted above the first
    /// `Game`/`update` line (or at the top when none exists).
    Installed(Vec<Vec<u8>>),
}

/// Installs or updates an addon among the gameinfo lines.
///
/// When a line already names both `Game` and the addon and the addon's
/// directory existed, this is an update and the lines stay as they are.
/// Otherwise the addon's search-path line is inserted above the first line
/// naming both `Game` and `update`, or first of all when no such line exists.
pub fn install_lines(lines: &Vec<Vec<u8>>, name: &Vec<u8>, addon_dir_existed: bool) -> (r:
    InstallOutcome)
    ensures
        ({
            let dv = lines.deep_view();
            let already = spec_find_line(dv, game_marker(), name@, 0) is Some;
            if already && addon_dir_existed {
                r is Updated
            } else {
                let idx = match spec_find_line(dv, game_marker(), update_marker(), 0) {
                    Some(i) => i,
                    None => 0,
                };
                r matches InstallOutcome::Installed(nl) && nl.deep_view() == dv.insert(
                    idx,
                    spec_game_line(name@),
                )
            }
        }),
{
    let ghost dv = lines.deep_view();
    let game = game_marker_bytes();
    let update = update_marker_bytes();
    if addon_dir_existed && find_line(lines, &game, name).is_some() {
        return InstallOutcome::Updated;
    }
    let idx = match find_line(lines, &game, &update) {
        Some(i) => i,
        None => 0,
    };
    proof {
        lemma_find_line(dv, game_marker(), update_marker(), 0);
    }
    let ghost gl = spec_game_line(name@);
    let mut out: Vec<Vec<u8>> = Vec::new();
    let n = lines.len();
    let mut i: usize = 0;
    proof {
        assert(out.deep_view() =~~= dv.take(0));
    }
    while i < n
        invariant
            n == lines@.len(),
            dv == lines.deep_view(),
            gl == spec_game_line(name@),
            idx <= n,
            0 <= i <= n,
            out.deep_view() == if i <= idx {
                dv.take(i as int)
            } else {
                dv.take(idx as int).push(gl) + dv.subrange(idx as int, i as int)
            },
        decreases n - i,
    {
        let ghost pre = out.deep_view();
        if i == idx {
            out.push(game_line(name));
            proof {
                assert(out.deep_view() =~~= pre.push(gl));
            }
        }
        let ghost mid = out.deep_view();
        out.push(copy_bytes(&lines[i]));
        proof {
            assert(dv[i as int] == lines@[i as int]@);
            assert(out.deep_view() =~~= mid.push(dv[i as int]));
            if i < idx {
                assert(dv.take(i as int).push(dv[i as int]) =~= dv.take(i + 1));
            } else if i == idx {
                assert(dv.take(idx as int).push(gl).push(dv[i as int]) =~= dv.take(idx as int).push(
                    gl,
                ) + dv.subrange(idx as int, i + 1));
            } else {
                assert((dv.take(idx as int).push(gl) + dv.subrange(idx as int, i as int)).push(
                    dv[i as int],
                ) =~= dv.take(idx as int).push(gl) + dv.subrange(idx as int, i + 1));
            }
        }
        i += 1;
    }
    if idx == n {
        let ghost pre = out.deep_view();
        out.push(game_line(name));
        proof {
            assert(out.deep_view() =~~= pre.push(gl));
        }
    }
    proof {
        assert(out.deep_view() =~~= dv.insert(idx as int, gl));
    }
    InstallOutcome::Installed(out)
}

/// A fresh copy of a byte string.
pub fn copy_bytes(v: &Vec<u8>) -> (r: Vec<u8>)
    ensures
        r@ == v@,
{
    let r = sub_vec(v, 0, v.len());
    assert(v@.subrange(0, v@.len() as int) =~= v@);
    r
}

/// The lines with the line at `idx` left out.
fn lines_without(lines: &Vec<Vec<u8>>, idx: usize) -> (r: Vec<Vec<u8>>)
    requires
        idx < lines@.len(),
    ensures
        r.deep_view() == lines.deep_view().remove(idx as int),
{
    let ghost dv = lines.deep_view();
    let n = lines.len();
    let mut out: Vec<Vec<u8>> = Vec::new();
    let mut i: usize = 0;
    proof {
        assert(out.deep_view() =~~= dv.take(0));
    }
    while i < n
        invariant
            n == lines@.len(),
            dv == lines.deep_view(),
            idx < n,
            0 <= i <= n,
            out.deep_view() == if i <= idx {
                dv.take(i as int)
            } else {
                dv.take(idx as int) + dv.subrange(idx + 1, i as int)
            },
        decreases n - i,
    {
        let ghost pre = out.deep_view();
        if i != idx {
            out.push(copy_bytes(&lines[i]));
            proof {
                assert(dv[i as int] == lines@[i as int]@);
                assert(out.deep_view() =~~= pre.push(dv[i as int]));
                if i < idx {
                    assert(dv.take(i as int).push(dv[i as int]) =~= dv.take(i + 1));
                } else {
                    assert((dv.take(idx as int) + dv.subrange(idx + 1, i as int)).push(
                        dv[i as int],
                    ) =~= dv.take(idx as int) + dv.subrange(idx + 1, i + 1));
                }
            }
        } else {
            proof {
                assert(dv.take(idx as int) + dv.subrange(idx + 1, i + 1) =~= dv.take(idx as int));
            }
        }
        i += 1;
    }
    proof {
        assert(out.deep_view() =~~= dv.remove(idx as int));
    }
    out
}

/// The lines with the line at `idx` replaced by `line`.
fn lines_with_replaced(lines: &Vec<Vec<u8>>, idx: usize, line: Vec<u8>) -> (r: Vec<Vec<u8>>)
    requires
        idx < lines@.len(),
    ensures
        r.deep_view() == lines.deep_view().update(idx as int, line@),
{
    let ghost dv = lines.deep_view();
    let ghost lv = line@;
    let n = lines.len();
    let mut out: Vec<Vec<u8>> = Vec::new();
    let mut i: usize = 0;
    let mut replacement = Some(line);
    proof {
        assert(out.deep_view() =~~= dv.update(idx as int, lv).take(0));
    }
    while i < n
        invariant
            n == lines@.len(),
            dv == lines.deep_view(),
            idx < n,
            0 <= i <= n,
            i <= idx ==> (replacement matches Some(l) && l@ == lv),
            out.deep_view() == dv.update(idx as int, lv).take(i as int),
        decreases n - i,
    {
        let ghost pre = out.deep_view();
        let ghost target = dv.update(idx as int, lv);
        if i == idx {
            let l = replacement.take().unwrap();
            out.push(l);
            proof {
                assert(out.deep_view() =~~= pre.push(lv));
                assert(target.take(i as int).push(target[i as int]) =~= target.take(i + 1));
            }
        } else {
            out.push(copy_bytes(&lines[i]));
            proof {
                assert(dv[i as int] == lines@[i as int]@);
                assert(out.deep_view() =~~= pre.push(dv[i as int]));
                assert(target.take(i as int).push(target[i as int]) =~= target.take(i + 1));
            }
        }
        i += 1;
    }
    proof {
        assert(dv.update(idx as int, lv).take(n as int) =~= dv.update(idx as int, lv));
    }
    out
}

/// What uninstalling found and did.
#[derive(Debug)]
pub enum UninstallOutcome {
    /// No addon name was given.
    EmptyName,
    /// The name touches a core search path, which is never uninstalled.
    Excluded,
    /// No line names both `Game` and the addon.
    NotFound,
    /// The edited lines, with the addon's line removed.
    Removed(Vec<Vec<u8>>),
}

/// Uninstalls an addon from the gameinfo lines: removes the first line that
/// names both `Game` and the addon. An empty name, a name touching a core
/// search path, and a name no line carries are each reported, not edited.
pub fn uninstall_lines(lines: &Vec<Vec<u8>>, name: &Vec<u8>) -> (r: UninstallOutcome)
    ensures
        ({
            let dv = lines.deep_view();
            if name@.len() == 0 {
                r is EmptyName
            } else if spec_excluded(name@) {
                r is Excluded
            } else {
                match spec_find_line(dv, game_marker(), name@, 0) {
                    None => r is NotFound,
                    Some(i) => r matches UninstallOutcome::Removed(nl) && nl.deep_view()
                        == dv.remove(i),
                }
            }
        }),
{
    if name.len() == 0 {
        return UninstallOutcome::EmptyName;
    }
    if excluded_in(name) {
        return UninstallOutcome::Excluded;
    }
    let game = game_marker_bytes();
    match find_line(lines, &game, name) {
        None => UninstallOutcome::NotFound,
        Some(i) => {
            proof {
                lemma_find_line(lines.deep_view(), game_marker(), name@, 0);
            }
            UninstallOutcome::Removed(lines_without(lines, i))
        },
    }
}

/// What renaming found and did.
#[derive(Debug)]
pub enum RenameOutcome {
    /// One of the names was empty.
    EmptyNames,
    /// The new name touches a core search path.
    ExcludedNew,
    /// The current name touches a core search path.
    ExcludedCurrent,
    /// A line already names both `Game` and the new name.
    NewExists,
    /// No line names both `Game` and the current name.
    CurrentNotFound,
    /// The edited lines, the addon's line rebuilt under the new name.
    Renamed(Vec<Vec<u8>>),
}

/// Renames an addon among the gameinfo lines: replaces the first line naming
/// both `Game` and the current name with the new name's search-path line.
/// Empty names, names touching core search paths, a new name already listed,
/// and a current name no line carries are each reported, not edited.
pub fn rename_lines(lines: &Vec<Vec<u8>>, current: &Vec<u8>, new_name: &Vec<u8>) -> (r:
    RenameOutcome)
    ensures
        ({
            let dv = lines.deep_view();
            if current@.len() == 0 || new_name@.len() == 0 {
                r is EmptyNames
            } else if !spec_excluded(current@) && !spec_excluded(new_name@) {
                if spec_find_line(dv, game_marker(), new_name@, 0) is Some {
                    r is NewExists
                } else {
                    match spec_find_line(dv, game_marker(), current@, 0) {
                        None => r is CurrentNotFound,
                        Some(i) => r matches RenameOutcome::Renamed(nl) && nl.deep_view()
                            == dv.update(i, spec_game_line(new_name@)),
                    }
                }
            } else if spec_excluded(current@) {
                r is ExcludedCurrent
            } else {
                r is ExcludedNew
            }
        }),
{
    if current.len() == 0 || new_name.len() == 0 {
        return RenameOutcome::EmptyNames;
    }
    if excluded_in(current) {
        return RenameOutcome::ExcludedCurrent;
    }
    if excluded_in(new_name) {
        return RenameOutcome::ExcludedNew;
    }
    let game = game_marker_bytes();
    if find_line(lines, &game, new_name).is_some() {
        return RenameOutcome::NewExists;
    }
    match find_line(lines, &game, current) {
        None => RenameOutcome::CurrentNotFound,
        Some(i) => {
            proof {
                lemma_find_line(lines.deep_view(), game_marker(), current@, 0);
            }
            RenameOutcome::Renamed(lines_with_replaced(lines, i, game_line(new_name)))
        },
    }
}

/// The first position at or after `i` holding a byte that is not a tab.
pub open spec fn skip_tabs(s: Seq<u8>, i: int) -> int
    recommends
        0 <= i <= s.len(),
    decreases s.len() - i when 0 <= i <= s.len()
{
    if i >= s.len() {
        i
    } else if s[i] == 0x09 {
        skip_tabs(s, i + 1)
    } else {
        i
    }
}

/// `s` with every leading copy of the non-empty prefix `p` removed.
pub open spec fn strip_prefix_rep(s: Seq<u8>, p: Seq<u8>) -> Seq<u8>
    decreases s.len(),
{
    if p.len() > 0 && p.len() <= s.len() && s.subrange(0, p.len() as int) == p {
        strip_prefix_rep(s.skip(p.len() as int), p)
    } else {
        s
    }
}

/// `s` with every leftmost, non-overlapping occurrence of the non-empty
/// `from` replaced by `to`; an empty `from` leaves `s` unchanged.
pub open spec fn spec_replace(s: Seq<u8>, from: Seq<u8>, to: Seq<u8>) -> Seq<u8>
    decreases s.len(),
{
    if from.len() == 0 || s.len() < from.len() {
        s
    } else if s.subrange(0, from.len() as int) == from {
        to + spec_replace(s.skip(from.len() as int), from, to)
    } else {
        seq![s[0]] + spec_replace(s.drop_first(), from, to)
    }
}

/// Replaces occurrences of `from` by `to`, as `spec_replace` describes.
pub fn replace_all(s: &Vec<u8>, from: &Vec<u8>, to: &Vec<u8>) -> (r: Vec<u8>)
    ensures
        r@ == spec_replace(s@, from@, to@),
{
    let n = s.len();
    let flen = from.len();
    if flen == 0 {
        return copy_bytes(s);
    }
    let mut out: Vec<u8> = Vec::new();
    let mut i: usize = 0;
    proof {
        assert(s@.skip(0) =~= s@);
        assert(Seq::<u8>::empty() + spec_replace(s@, from@, to@) =~= spec_replace(
            s@,
            from@,
            to@,
        ));
    }
    while i < n
        invariant
            n == s@.len(),
            flen == from@.len(),
            flen > 0,
            0 <= i <= n,
            spec_replace(s@, from@, to@) == out@ + spec_replace(s@.skip(i as int), from@, to@),
        decreases n - i,
    {
        let ghost rest = s@.skip(i as int);
        if matches_at(s, from, i) {
            proof {
                assert(rest.subrange(0, flen as int) =~= s@.subrange(i as int, i + flen));
                assert(rest.skip(flen as int) =~= s@.skip(i + flen));
                assert(spec_replace(rest, from@, to@) == to@ + spec_replace(
                    s@.skip(i + flen),
                    from@,
                    to@,
                ));
            }
            let ghost pre = out@;
            push_all(&mut out, to);
            proof {
                assert(pre + (to@ + spec_replace(s@.skip(i + flen), from@, to@)) =~= (pre + to@)
                    + spec_replace(s@.skip(i + flen), from@, to@));
            }
            i += flen;
        } else {
            proof {
                if rest.len() >= flen {
                    assert(rest.subrange(0, flen as int) =~= s@.subrange(i as int, i + flen));
                    assert(rest.subrange(0, flen as int) != from@);
                    assert(spec_replace(rest, from@, to@) == seq![rest[0]] + spec_replace(
                        rest.drop_first(),
                        from@,
                        to@,
                    ));
                } else {
                    // too short to match: the spec keeps the bytes one by one
                    assert(spec_replace(rest, from@, to@) == rest);
                    assert(rest.drop_first().len() < flen);
                    assert(spec_replace(rest.drop_first(), from@, to@) == rest.drop_first());
                    assert(seq![rest[0]] + rest.drop_first() =~= rest);
                }
                assert(rest.drop_first() =~= s@.skip(i + 1));
                assert(rest[0] == s@[i as int]);
            }
            let ghost pre = out@;
            out.push(s[i]);
            proof {
                assert(out@ =~= pre + seq![s@[i as int]]);
                assert(pre + (seq![s@[i as int]] + spec_replace(s@.skip(i + 1), from@, to@)) =~= (
                pre + seq![s@[i as int]]) + spec_replace(s@.skip(i + 1), from@, to@));
            }
            i += 1;
        }
    }
    proof {
        assert(s@.skip(n as int) =~= Seq::<u8>::empty());
        assert(out@ + Seq::<u8>::empty() =~= out@);
    }
    out
}

/// How a search-path line is shown by the listing: leading tabs dropped,
/// leading `Game` markers dropped, and each run of four tabs collapsed to one.
pub open spec fn spec_list_display(line: Seq<u8>) -> Seq<u8> {
    spec_replace(
        strip_prefix_rep(line.skip(skip_tabs(line, 0)), game_marker()),
        ascii_seq("\t\t\t\t"@),
        seq![0x09u8],
    )
}

/// Renders one search-path line for the listing, as `spec_list_display`.
pub fn list_display(line: &Vec<u8>) -> (r: Vec<u8>)
    ensures
        r@ == spec_list_display(line@),
{
    proof {
        reveal_strlit("\t\t\t\t");
    }
    let n = line.len();
    let mut i: usize = 0;
    while i < n && line[i] == 0x09
        invariant
            n == line@.len(),
            0 <= i <= n,
            skip_tabs(line@, 0) == skip_tabs(line@, i as int),
        decreases n - i,
    {
        proof {
            assert(skip_tabs(line@, i as int) == skip_tabs(line@, i + 1));
        }
        i += 1;
    }
    proof {
        assert(skip_tabs(line@, i as int) == i);
    }
    let mut s = sub_vec(line, i, n);
    proof {
        assert(s@ =~= line@.skip(skip_tabs(line@, 0)));
    }
    let game = game_marker_bytes();
    proof {
        reveal_strlit("Game");
    }
    let ghost stripped_from = s@;
    loop
        invariant
            game@ == game_marker(),
            game@.len() == 4,
            strip_prefix_rep(stripped_from, game_marker()) == strip_prefix_rep(s@, game_marker()),
        ensures
            strip_prefix_rep(stripped_from, game_marker()) == s@,
        decreases s@.len(),
    {
        if matches_at(&s, &game, 0) {
            assert(s@.subrange(0, game@.len() as int) =~= game@);
            let s2 = sub_vec(&s, game.len(), s.len());
            proof {
                assert(s2@ =~= s@.skip(game@.len() as int));
                assert(strip_prefix_rep(s@, game_marker()) == strip_prefix_rep(
                    s2@,
                    game_marker(),
                ));
            }
            s = s2;
        } else {
            proof {
                if game@.len() <= s@.len() {
                    assert(s@.subrange(0, game@.len() as int) != game@);
                }
                assert(strip_prefix_rep(s@, game_marker()) == s@);
            }
            break ;
        }
    }
    replace_all(&s, &ascii_bytes("\t\t\t\t"), &tab_byte())
}

/// A single tab, the collapsed form of a four-tab run.
fn tab_byte() -> (v: Vec<u8>)
    ensures
        v@ == seq![0x09u8],
{
    let mut v: Vec<u8> = Vec::new();
    v.push(0x09);
    assert(v@ =~= seq![0x09u8]);
    v
}

/// The listing of the addons among the lines: walking the file, a line
/// naming `SearchPaths` opens the block and a line with `}` inside it closes
/// it; every line inside the block that names `Game` and touches no core
/// search path is shown, rendered by `spec_list_display`.
pub open spec fn spec_list(lines: Seq<Seq<u8>>, i: int, sp: bool) -> Seq<Seq<u8>>
    recommends
        0 <= i <= lines.len(),
    decreases lines.len() - i when 0 <= i <= lines.len()
{
    if i >= lines.len() {
        Seq::empty()
    } else {
        let line = lines[i];
        let sp1 = if contains_sub(line, searchpaths_marker()) {
            true
        } else if sp && contains_sub(line, ascii_seq("}"@)) {
            false
        } else {
            sp
        };
        let here = if sp1 && contains_sub(line, game_marker()) && !spec_excluded(line) {
            seq![spec_list_display(line)]
        } else {
            Seq::<Seq<u8>>::empty()
        };
        here + spec_list(lines, i + 1, sp1)
    }
}

/// Lists the installed addons named by the lines, in file order.
pub fn list_lines(lines: &Vec<Vec<u8>>) -> (r: Vec<Vec<u8>>)
    ensures
        r.deep_view() == spec_list(lines.deep_view(), 0, false),
{
    proof {
        reveal_strlit("SearchPaths");
        reveal_strlit("}");
    }
    let ghost dv = lines.deep_view();
    let searchpaths = ascii_bytes("SearchPaths");
    let brace = ascii_bytes("}");
    let game = game_marker_bytes();
    let n = lines.len();
    let mut out: Vec<Vec<u8>> = Vec::new();
    let mut sp = false;
    let mut i: usize = 0;
    proof {
        assert(out.deep_view() + spec_list(dv, 0, false) =~~= spec_list(dv, 0, false));
    }
    while i < n
        invariant
            n == lines@.len(),
            dv == lines.deep_view(),
            searchpaths@ == searchpaths_marker(),
            brace@ == ascii_seq("}"@),
            game@ == game_marker(),
            0 <= i <= n,
            spec_list(dv, 0, false) == out.deep_view() + spec_list(dv, i as int, sp),
        decreases n - i,
    {
        let ghost pre = out.deep_view();
        let line = &lines[i];
        proof {
            assert(dv[i as int] == lines@[i as int]@);
        }
        let sp1 = if find_sub(line, &searchpaths) {
            true
        } else if sp && find_sub(line, &brace) {
            false
        } else {
            sp
        };
        if sp1 && find_sub(line, &game) && !excluded_in(line) {
            out.push(list_display(line));
            proof {
                assert(out.deep_view() =~~= pre.push(spec_list_display(dv[i as int])));
                assert(spec_list(dv, i as int, sp) == seq![spec_list_display(dv[i as int])]
                    + spec_list(dv, i + 1, sp1));
                assert(pre + (seq![spec_list_display(dv[i as int])] + spec_list(dv, i + 1, sp1))
                    =~~= pre.push(spec_list_display(dv[i as int])) + spec_list(dv, i + 1, sp1));
            }
        } else {
            proof {
                assert(spec_list(dv, i as int, sp) == Seq::<Seq<u8>>::empty() + spec_list(
                    dv,
                    i + 1,
                    sp1,
                ));
                assert(Seq::<Seq<u8>>::empty() + spec_list(dv, i + 1, sp1) =~~= spec_list(
                    dv,
                    i + 1,
                    sp1,
                ));
            }
        }
        sp = sp1;
        i += 1;
    }
    proof {
        assert(spec_list(dv, n as int, sp) =~~= Seq::<Seq<u8>>::empty());
        assert(out.deep_view() + Seq::<Seq<u8>>::empty() =~~= out.deep_view());
    }
    out
}

/// A whitespace character, as the validation rejects it: the characters the
/// standard library's `char::is_whitespace` accepts.
pub open spec fn is_space_char(c: char) -> bool {
    let u = c as u32;
    u == 0x20 || (0x09 <= u && u <= 0x0d) || u == 0x85 || u == 0xa0 || u == 0x1680 || (0x2000 <= u
        && u <= 0x200a) || u == 0x2028 || u == 0x2029 || u == 0x202f || u == 0x205f || u == 0x3000
}

/// A character no addon name may hold: whitespace, or one of the characters
/// known to trouble file managers and filesystems.
pub open spec fn is_forbidden_name_char(c: char) -> bool {
    is_space_char(c) || c == '/' || c == '\\' || c == ':' || c == '*' || c == '?' || c == '"' || c
        == '<' || c == '>' || c == '|'
}

/// A name every character of which is allowed. The empty name passes here;
/// whether an empty name is acceptable is the operation's own rule.
pub open spec fn spec_valid_name(s: Seq<char>) -> bool {
    forall|i: int| 0 <= i < s.len() ==> !is_forbidden_name_char(s[i])
}

/// Checks an addon name for whitespace and special characters.
pub fn valid_addon_name(name: &str) -> (r: bool)
    ensures
        r == spec_valid_name(name@),
{
    let n = name.unicode_len();
    let mut i: usize = 0;
    while i < n
        invariant
            n == name@.len(),
            0 <= i <= n,
            forall|j: int| 0 <= j < i ==> !is_forbidden_name_char(name@[j]),
        decreases n - i,
    {
        let c = name.get_char(i);
        let u = c as u32;
        let ws = u == 0x20 || (0x09 <= u && u <= 0x0d) || u == 0x85 || u == 0xa0 || u == 0x1680
            || (0x2000 <= u && u <= 0x200a) || u == 0x2028 || u == 0x2029 || u == 0x202f || u
            == 0x205f || u == 0x3000;
        if ws || c == '/' || c == '\\' || c == ':' || c == '*' || c == '?' || c == '"' || c == '<'
            || c == '>' || c == '|' {
            return false;
        }
        i += 1;
    }
    true
}

} // verus!
