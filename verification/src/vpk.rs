//! The VPK (version 1) directory-archive reader.
//!
//! A directory file holds a 12-byte header — signature `0x55aa1234`, version
//! `1`, and the byte size of the directory tree — followed by the tree: for
//! each extension a run of paths, for each path a run of file names, for each
//! file name an 18-byte entry record (CRC, preload length, archive index,
//! entry offset, entry length, terminator `0xffff`) followed by that many
//! preload bytes. Every run ends with an empty string. An entry's key is
//! `path + "/" + name + "." + extension`; the archive root is the path of a
//! single space, so a root file's key starts `" /"`.
//!
//! An entry whose archive index is the sentinel `0x7fff` is stored inline in
//! the directory file itself: its bytes begin at the absolute offset
//! `12 + tree_size + entry_offset`. Any other index names a numbered archive
//! file (`base_NNN.vpk` beside the directory file, the base being the
//! directory file's stem with a trailing `_dir` stripped), where the bytes
//! begin at `entry_offset` from the start of that file.

use vstd::prelude::*;
use crate::addon_info::{extract_fields, field_from, key_description, key_title, key_version,
    ExtractedData};
use crate::bytes::{ascii_bytes, ascii_seq, bytes_eq, le16_at, le32_at, push_all, read_le16,
    read_le32, spec_lines, sub_vec};

verus! {

/// The archive index marking an entry stored inline in the directory file.
pub const INLINE_ARCHIVE_INDEX: u16 = 0x7fff;

/// One file's record in the directory tree: where its bytes live and how many
/// there are.
#[derive(Clone, Copy, PartialEq, Eq, Structural, Debug)]
pub struct DirectoryEntry {
    /// CRC of the file's data, as recorded in the tree (not checked here).
    pub crc: u32,
    /// Bytes of preload data that followed this record inside the tree.
    pub preload_length: u16,
    /// Which archive holds the data; `0x7fff` means the directory file itself.
    pub archive_index: u16,
    /// Offset of the data: relative to the end of the tree for an inline
    /// entry, relative to the start of the numbered archive otherwise.
    pub entry_offset: u32,
    /// Byte count of the data.
    pub entry_length: u32,
}

impl DirectoryEntry {
    /// Whether the entry's bytes live inline in the directory file.
    pub fn is_inline(&self) -> (r: bool)
        ensures
            r == (self.archive_index == 0x7fff),
    {
        self.archive_index == INLINE_ARCHIVE_INDEX
    }
}

/// Errors of the reader: the header or tree could not be parsed, or the
/// located entry's bytes could not be retrieved.
#[derive(Clone, Copy, PartialEq, Eq, Structural, Debug)]
pub enum VpkError {
    /// The file is not a well-formed VPK version 1 directory.
    Format,
    /// The manifest entry is absent, or its recorded span lies outside the
    /// data actually present.
    Extraction,
}

/// The position of the first zero byte at or after `i`, if any.
pub open spec fn find_nul(b: Seq<u8>, i: int) -> Option<int>
    recommends
        0 <= i <= b.len(),
    decreases b.len() - i when 0 <= i <= b.len()
{
    if i >= b.len() {
        None
    } else if b[i] == 0 {
        Some(i)
    } else {
        find_nul(b, i + 1)
    }
}

/// A found zero byte lies in bounds, is zero, and is the first one.
pub proof fn lemma_find_nul(b: Seq<u8>, i: int)
    requires
        0 <= i <= b.len(),
    ensures
        match find_nul(b, i) {
            Some(k) => i <= k < b.len() && b[k] == 0 && forall|j: int| i <= j < k ==> b[j] != 0,
            None => forall|j: int| i <= j < b.len() ==> b[j] != 0,
        },
    decreases b.len() - i,
{
    if i < b.len() && b[i] != 0 {
        lemma_find_nul(b, i + 1);
    }
}

/// The zero-terminated string at `i`: its bytes and the position after the
/// terminator. A missing terminator is a truncated tree.
pub open spec fn spec_read_str(b: Seq<u8>, i: int) -> Option<(Seq<u8>, int)> {
    match find_nul(b, i) {
        Some(k) => Some((b.subrange(i, k), k + 1)),
        None => None,
    }
}

/// Reading a string advances the position and stays within the buffer.
pub proof fn lemma_read_str_bounds(b: Seq<u8>, i: int)
    requires
        0 <= i <= b.len(),
    ensures
        match spec_read_str(b, i) {
            Some((s, p)) => i < p <= b.len() && s.len() == p - i - 1,
            None => true,
        },
{
    lemma_find_nul(b, i);
}

/// The 18-byte entry record at `pos`, with the position after the record and
/// its preload bytes. The terminator must be `0xffff`; a record or preload
/// running past the end of the buffer is a truncated tree.
pub open spec fn spec_read_entry(b: Seq<u8>, pos: int) -> Option<(DirectoryEntry, int)> {
    if pos + 18 <= b.len() {
        let preload = le16_at(b, pos + 4);
        if le16_at(b, pos + 16) == 0xffff && pos + 18 + preload <= b.len() {
            Some(
                (
                    DirectoryEntry {
                        crc: le32_at(b, pos) as u32,
                        preload_length: preload as u16,
                        archive_index: le16_at(b, pos + 6) as u16,
                        entry_offset: le32_at(b, pos + 8) as u32,
                        entry_length: le32_at(b, pos + 12) as u32,
                    },
                    pos + 18 + preload,
                ),
            )
        } else {
            None
        }
    } else {
        None
    }
}

/// An entry's key in the tree: `path + "/" + name + "." + extension`.
pub open spec fn entry_key(path: Seq<u8>, name: Seq<u8>, ext: Seq<u8>) -> Seq<u8> {
    path + seq![0x2fu8] + name + seq![0x2eu8] + ext
}

/// The directory tree items from `pos` on, walked as the format lays them
/// out. The cursor is given by what is already in scope: no extension yet,
/// an extension whose paths are being read, or an extension and path whose
/// file names are being read. `end` is where the header said the tree ends;
/// the result is the keyed entries in tree order and the position after them.
pub open spec fn spec_parse_items(
    b: Seq<u8>,
    pos: int,
    end: int,
    ext: Option<Seq<u8>>,
    path: Option<Seq<u8>>,
) -> Option<(Seq<(Seq<u8>, DirectoryEntry)>, int)>
    decreases b.len() - pos when 0 <= pos <= b.len() via spec_parse_items_dec
{
    match (ext, path) {
        (None, _) => {
            if pos >= end {
                Some((Seq::empty(), pos))
            } else {
                match spec_read_str(b, pos) {
                    None => None,
                    Some((e, p1)) => if e.len() == 0 {
                        Some((Seq::empty(), p1))
                    } else {
                        spec_parse_items(b, p1, end, Some(e), None)
                    },
                }
            }
        },
        (Some(e), None) => {
            match spec_read_str(b, pos) {
                None => None,
                Some((p, p1)) => if p.len() == 0 || p1 > end {
                    spec_parse_items(b, p1, end, None, None)
                } else {
                    spec_parse_items(b, p1, end, Some(e), Some(p))
                },
            }
        },
        (Some(e), Some(pa)) => {
            match spec_read_str(b, pos) {
                None => None,
                Some((name, p1)) => if name.len() == 0 || p1 > end {
                    spec_parse_items(b, p1, end, Some(e), None)
                } else {
                    match spec_read_entry(b, p1) {
                        None => None,
                        Some((entry, p2)) => match spec_parse_items(b, p2, end, Some(e), Some(pa)) {
                            None => None,
                            Some((rest, fin)) => Some(
                                (seq![(entry_key(pa, name, e), entry)] + rest, fin),
                            ),
                        },
                    }
                },
            }
        },
    }
}

#[via_fn]
proof fn spec_parse_items_dec(
    b: Seq<u8>,
    pos: int,
    end: int,
    ext: Option<Seq<u8>>,
    path: Option<Seq<u8>>,
) {
    lemma_read_str_bounds(b, pos);
    match spec_read_str(b, pos) {
        Some((s, p1)) => {
            lemma_read_str_bounds(b, p1);
        },
        None => {},
    }
}

/// The parse of a whole directory file: `None` if the header is malformed or
/// the tree truncated, else the tree size and the keyed entries in tree order.
pub open spec fn spec_parse_vpk(b: Seq<u8>) -> Option<(u32, Seq<(Seq<u8>, DirectoryEntry)>)> {
    if b.len() >= 12 && le32_at(b, 0) == 0x55aa1234 && le32_at(b, 4) == 1 {
        let tree_size = le32_at(b, 8);
        match spec_parse_items(b, 12, 12 + tree_size, None, None) {
            Some((items, fin)) => Some((tree_size as u32, items)),
            None => None,
        }
    } else {
        None
    }
}

/// The keyed entries of a vector of pairs, as sequences.
pub open spec fn pairs_view(v: Seq<(Vec<u8>, DirectoryEntry)>) -> Seq<(Seq<u8>, DirectoryEntry)> {
    Seq::new(v.len(), |i: int| (v[i].0@, v[i].1))
}

/// A parsed directory file: the tree size from its header and its keyed
/// entries, in tree order.
pub struct VpkDirectory {
    /// The tree size the header declared, needed for inline offsets.
    pub tree_size: u32,
    /// The tree's entries, keyed as `path + "/" + name + "." + extension`.
    pub entries: Vec<(Vec<u8>, DirectoryEntry)>,
}

impl VpkDirectory {
    /// The entries as key/entry sequences.
    pub open spec fn entries_view(&self) -> Seq<(Seq<u8>, DirectoryEntry)> {
        pairs_view(self.entries@)
    }
}

/// Reads the zero-terminated string at `pos`.
fn read_nul_str(b: &Vec<u8>, pos: usize) -> (r: Option<(Vec<u8>, usize)>)
    requires
        pos <= b@.len(),
    ensures
        match r {
            Some((s, p)) => spec_read_str(b@, pos as int) == Some((s@, p as int)) && pos < p
                <= b@.len(),
            None => spec_read_str(b@, pos as int) is None,
        },
{
    let n = b.len();
    let mut k = pos;
    while k < n && b[k] != 0
        invariant
            n == b@.len(),
            pos <= k <= n,
            forall|j: int| pos <= j < k ==> b@[j] != 0,
        decreases n - k,
    {
        k += 1;
    }
    proof {
        lemma_find_nul(b@, pos as int);
        if k < n {
            assert(find_nul(b@, pos as int) == Some(k as int));
        } else {
            assert(find_nul(b@, pos as int) is None);
        }
    }
    if k == n {
        return None;
    }
    let s = sub_vec(b, pos, k);
    Some((s, k + 1))
}

/// Reads the 18-byte entry record at `pos` and skips its preload bytes.
fn read_entry(b: &Vec<u8>, pos: usize) -> (r: Option<(DirectoryEntry, usize)>)
    requires
        pos <= b@.len(),
    ensures
        match r {
            Some((e, p)) => spec_read_entry(b@, pos as int) == Some((e, p as int)) && pos < p
                <= b@.len(),
            None => spec_read_entry(b@, pos as int) is None,
        },
{
    let n = b.len();
    if n - pos < 18 {
        return None;
    }
    let crc = read_le32(b, pos);
    let preload = read_le16(b, pos + 4);
    let archive_index = read_le16(b, pos + 6);
    let entry_offset = read_le32(b, pos + 8);
    let entry_length = read_le32(b, pos + 12);
    let terminator = read_le16(b, pos + 16);
    if terminator != 0xffff {
        return None;
    }
    if (preload as usize) > n - (pos + 18) {
        return None;
    }
    let p = pos + 18 + preload as usize;
    Some(
        (
            DirectoryEntry {
                crc,
                preload_length: preload,
                archive_index,
                entry_offset,
                entry_length,
            },
            p,
        ),
    )
}

/// Builds an entry's tree key from its path, name and extension.
fn make_entry_key(path: &Vec<u8>, name: &Vec<u8>, ext: &Vec<u8>) -> (k: Vec<u8>)
    ensures
        k@ == entry_key(path@, name@, ext@),
{
    let mut k: Vec<u8> = Vec::new();
    push_all(&mut k, path);
    k.push(0x2f);
    push_all(&mut k, name);
    k.push(0x2e);
    push_all(&mut k, ext);
    assert(k@ =~= entry_key(path@, name@, ext@));
    k
}

/// Walks extension runs from `pos`, pushing keyed entries onto `acc`.
fn parse_exts(b: &Vec<u8>, pos: usize, end: u64, acc: &mut Vec<(Vec<u8>, DirectoryEntry)>) -> (r:
    Option<usize>)
    requires
        pos <= b@.len(),
    ensures
        match spec_parse_items(b@, pos as int, end as int, None, None) {
            Some((items, fin)) => r == Some(fin as usize) && pairs_view(final(acc)@) == pairs_view(
                old(acc)@,
            ) + items,
            None => r is None,
        },
    decreases b@.len() - pos,
{
    let ghost res = spec_parse_items(b@, pos as int, end as int, None, None);
    if (pos as u64) >= end {
        proof {
            assert(res == Some((Seq::<(Seq<u8>, DirectoryEntry)>::empty(), pos as int)));
            assert(pairs_view(acc@) + Seq::<(Seq<u8>, DirectoryEntry)>::empty() =~= pairs_view(
                acc@,
            ));
        }
        return Some(pos);
    }
    match read_nul_str(b, pos) {
        None => None,
        Some((e, p1)) => {
            if e.len() == 0 {
                proof {
                    assert(res == Some((Seq::<(Seq<u8>, DirectoryEntry)>::empty(), p1 as int)));
                    assert(pairs_view(acc@) + Seq::<(Seq<u8>, DirectoryEntry)>::empty()
                        =~= pairs_view(acc@));
                }
                Some(p1)
            } else {
                proof {
                    assert(res == spec_parse_items(b@, p1 as int, end as int, Some(e@), None));
                }
                parse_paths(b, p1, end, &e, acc)
            }
        },
    }
}

/// Walks the path runs of one extension.
fn parse_paths(
    b: &Vec<u8>,
    pos: usize,
    end: u64,
    ext: &Vec<u8>,
    acc: &mut Vec<(Vec<u8>, DirectoryEntry)>,
) -> (r: Option<usize>)
    requires
        pos <= b@.len(),
    ensures
        match spec_parse_items(b@, pos as int, end as int, Some(ext@), None) {
            Some((items, fin)) => r == Some(fin as usize) && pairs_view(final(acc)@) == pairs_view(
                old(acc)@,
            ) + items,
            None => r is None,
        },
    decreases b@.len() - pos,
{
    let ghost res = spec_parse_items(b@, pos as int, end as int, Some(ext@), None);
    match read_nul_str(b, pos) {
        None => None,
        Some((p, p1)) => {
            if p.len() == 0 || (p1 as u64) > end {
                proof {
                    assert(res == spec_parse_items(b@, p1 as int, end as int, None, None));
                }
                parse_exts(b, p1, end, acc)
            } else {
                proof {
                    assert(res == spec_parse_items(b@, p1 as int, end as int, Some(ext@), Some(p@)));
                }
                parse_names(b, p1, end, ext, &p, acc)
            }
        },
    }
}

/// Walks the file names of one path, reading each name's entry record.
fn parse_names(
    b: &Vec<u8>,
    pos: usize,
    end: u64,
    ext: &Vec<u8>,
    path: &Vec<u8>,
    acc: &mut Vec<(Vec<u8>, DirectoryEntry)>,
) -> (r: Option<usize>)
    requires
        pos <= b@.len(),
    ensures
        match spec_parse_items(b@, pos as int, end as int, Some(ext@), Some(path@)) {
            Some((items, fin)) => r == Some(fin as usize) && pairs_view(final(acc)@) == pairs_view(
                old(acc)@,
            ) + items,
            None => r is None,
        },
    decreases b@.len() - pos,
{
    let ghost res = spec_parse_items(b@, pos as int, end as int, Some(ext@), Some(path@));
    match read_nul_str(b, pos) {
        None => None,
        Some((name, p1)) => {
            if name.len() == 0 || (p1 as u64) > end {
                proof {
                    assert(res == spec_parse_items(b@, p1 as int, end as int, Some(ext@), None));
                }
                parse_paths(b, p1, end, ext, acc)
            } else {
                match read_entry(b, p1) {
                    None => {
                        proof {
                            assert(res is None);
                        }
                        None
                    },
                    Some((entry, p2)) => {
                        let key = make_entry_key(path, &name, ext);
                        let ghost acc0 = acc@;
                        let ghost pair = (entry_key(path@, name@, ext@), entry);
                        acc.push((key, entry));
                        proof {
                            assert(pairs_view(acc@) =~= pairs_view(acc0) + seq![pair]);
                        }
                        let r = parse_names(b, p2, end, ext, path, acc);
                        proof {
                            match spec_parse_items(b@, p2 as int, end as int, Some(ext@), Some(
                                path@,
                            )) {
                                Some((rest, fin)) => {
                                    assert(res == Some((seq![pair] + rest, fin)));
                                    assert((pairs_view(acc0) + seq![pair]) + rest =~= pairs_view(
                                        acc0,
                                    ) + (seq![pair] + rest));
                                },
                                None => {
                                    assert(res is None);
                                },
                            }
                        }
                        r
                    },
                }
            }
        },
    }
}

/// Parses a directory file: the 12-byte header — signature, version 1, tree
/// size — then the whole directory tree. Fails with the format error on a
/// wrong signature or version, or a tree that is malformed or truncated.
pub fn parse_vpk(bytes: &Vec<u8>) -> (r: Result<VpkDirectory, VpkError>)
    ensures
        match r {
            Ok(d) => spec_parse_vpk(bytes@) == Some((d.tree_size, d.entries_view())),
            Err(e) => spec_parse_vpk(bytes@) is None && e == VpkError::Format,
        },
{
    let n = bytes.len();
    if n < 12 {
        return Err(VpkError::Format);
    }
    let signature = read_le32(bytes, 0);
    let version = read_le32(bytes, 4);
    let tree_size = read_le32(bytes, 8);
    if signature != 0x55aa1234 || version != 1 {
        return Err(VpkError::Format);
    }
    let end: u64 = 12 + tree_size as u64;
    let mut entries: Vec<(Vec<u8>, DirectoryEntry)> = Vec::new();
    let r = parse_exts(bytes, 12, end, &mut entries);
    proof {
        assert(pairs_view(Seq::<(Vec<u8>, DirectoryEntry)>::empty()) =~= Seq::<(
            Seq<u8>,
            DirectoryEntry,
        )>::empty());
    }
    match r {
        Some(_) => {
            proof {
                match spec_parse_items(bytes@, 12, end as int, None, None) {
                    Some((items, fin)) => {
                        assert(Seq::<(Seq<u8>, DirectoryEntry)>::empty() + items =~= items);
                    },
                    None => {},
                }
            }
            Ok(VpkDirectory { tree_size, entries })
        },
        None => Err(VpkError::Format),
    }
}

/// The entry stored under `key`, the last one winning when the tree repeats a
/// key, as repeated insertion into a map would leave it.
pub open spec fn spec_find_entry(items: Seq<(Seq<u8>, DirectoryEntry)>, key: Seq<u8>) -> Option<
    DirectoryEntry,
>
    decreases items.len(),
{
    if items.len() == 0 {
        None
    } else if items.last().0 == key {
        Some(items.last().1)
    } else {
        spec_find_entry(items.drop_last(), key)
    }
}

impl VpkDirectory {
    /// Looks `key` up in the tree by exact byte match — no case folding, no
    /// partial matching. `None` means the archive lacks the resource, which
    /// is for the caller to judge.
    pub fn find_entry(&self, key: &Vec<u8>) -> (r: Option<DirectoryEntry>)
        ensures
            r == spec_find_entry(self.entries_view(), key@),
    {
        let ghost view = self.entries_view();
        let mut i = self.entries.len();
        proof {
            assert(view.take(i as int) =~= view);
        }
        while i > 0
            invariant
                i <= self.entries@.len(),
                view == self.entries_view(),
                spec_find_entry(view, key@) == spec_find_entry(view.take(i as int), key@),
            decreases i,
        {
            i = i - 1;
            let pair = &self.entries[i];
            proof {
                assert(view.take(i + 1).last() == view[i as int]);
                assert(view.take(i + 1).drop_last() =~= view.take(i as int));
                assert(view[i as int].0 == self.entries@[i as int].0@);
            }
            if bytes_eq(&pair.0, key) {
                return Some(pair.1);
            }
        }
        proof {
            assert(view.take(0) =~= Seq::<(Seq<u8>, DirectoryEntry)>::empty());
        }
        None
    }
}

/// The key of a file at the archive root: `" /" + stem + "." + extension`,
/// the root directory being written as a single space.
pub open spec fn spec_root_key(stem: Seq<u8>, ext: Seq<u8>) -> Seq<u8> {
    seq![0x20u8, 0x2fu8] + stem + seq![0x2eu8] + ext
}

/// Builds the root-entry key for a file name and extension.
pub fn root_entry_key(stem: &Vec<u8>, ext: &Vec<u8>) -> (k: Vec<u8>)
    ensures
        k@ == spec_root_key(stem@, ext@),
{
    let mut k: Vec<u8> = Vec::new();
    k.push(0x20);
    k.push(0x2f);
    push_all(&mut k, stem);
    k.push(0x2e);
    push_all(&mut k, ext);
    assert(k@ =~= spec_root_key(stem@, ext@));
    k
}

/// The root-entry key construction agrees with the tree's own key layout:
/// the root key of a file is its tree key under the single-space root path.
pub proof fn lemma_root_key_is_tree_key(stem: Seq<u8>, ext: Seq<u8>)
    ensures
        spec_root_key(stem, ext) == entry_key(seq![0x20u8], stem, ext),
{
    assert(spec_root_key(stem, ext) =~= entry_key(seq![0x20u8], stem, ext));
}

/// The key of the addon manifest, `" /addoninfo.txt"`.
pub open spec fn addon_info_key_spec() -> Seq<u8> {
    ascii_seq(" /addoninfo.txt"@)
}

/// Builds the manifest key from its stem and extension.
pub fn addon_info_key() -> (k: Vec<u8>)
    ensures
        k@ == addon_info_key_spec(),
{
    proof {
        reveal_strlit(" /addoninfo.txt");
        reveal_strlit("addoninfo");
        reveal_strlit("txt");
    }
    let stem = ascii_bytes("addoninfo");
    let ext = ascii_bytes("txt");
    let k = root_entry_key(&stem, &ext);
    assert(k@ =~= addon_info_key_spec());
    k
}

/// The bytes of an inline entry: exactly `entry_length` bytes starting at the
/// absolute offset `12 + tree_size + entry_offset` of the directory file —
/// header, then tree, then the data region the offset is relative to. `None`
/// when that span runs past the end of the file.
pub open spec fn spec_inline_content(b: Seq<u8>, tree_size: int, e: DirectoryEntry) -> Option<
    Seq<u8>,
> {
    let start = 12 + tree_size + e.entry_offset;
    if start + e.entry_length <= b.len() {
        Some(b.subrange(start, start + e.entry_length))
    } else {
        None
    }
}

impl VpkDirectory {
    /// Retrieves an inline entry's bytes from the directory file.
    pub fn inline_content(&self, bytes: &Vec<u8>, e: &DirectoryEntry) -> (r: Option<Vec<u8>>)
        ensures
            match r {
                Some(v) => spec_inline_content(bytes@, self.tree_size as int, *e) == Some(v@),
                None => spec_inline_content(bytes@, self.tree_size as int, *e) is None,
            },
    {
        let n = bytes.len();
        let start: u64 = 12 + self.tree_size as u64 + e.entry_offset as u64;
        if start + e.entry_length as u64 > n as u64 {
            return None;
        }
        Some(sub_vec(bytes, start as usize, (start + e.entry_length as u64) as usize))
    }
}

/// The bytes of an externally stored entry: exactly `entry_length` bytes
/// starting at `entry_offset` of the numbered archive file. `None` when that
/// span runs past the end of the given bytes.
pub open spec fn spec_external_content(b: Seq<u8>, e: DirectoryEntry) -> Option<Seq<u8>> {
    if e.entry_offset + e.entry_length <= b.len() {
        Some(b.subrange(e.entry_offset as int, e.entry_offset + e.entry_length))
    } else {
        None
    }
}

/// Retrieves an externally stored entry's bytes from its numbered archive.
pub fn external_content(archive_bytes: &Vec<u8>, e: &DirectoryEntry) -> (r: Option<Vec<u8>>)
    ensures
        match r {
            Some(v) => spec_external_content(archive_bytes@, *e) == Some(v@),
            None => spec_external_content(archive_bytes@, *e) is None,
        },
{
    let n = archive_bytes.len();
    if e.entry_offset as u64 + e.entry_length as u64 > n as u64 {
        return None;
    }
    let start = e.entry_offset as usize;
    Some(sub_vec(archive_bytes, start, start + e.entry_length as usize))
}

/// A stem with one trailing `_dir` stripped: the base name shared by a
/// directory file and its numbered archives.
pub open spec fn spec_strip_dir(stem: Seq<u8>) -> Seq<u8> {
    if stem.len() >= 4 && stem.subrange(stem.len() - 4, stem.len() as int) == ascii_seq("_dir"@) {
        stem.subrange(0, stem.len() - 4)
    } else {
        stem
    }
}

/// Strips a trailing `_dir` from a directory file's stem, if present.
pub fn strip_dir_suffix(stem: &Vec<u8>) -> (r: Vec<u8>)
    ensures
        r@ == spec_strip_dir(stem@),
{
    proof {
        reveal_strlit("_dir");
    }
    let n = stem.len();
    if n >= 4 && stem[n - 4] == 0x5f && stem[n - 3] == 0x64 && stem[n - 2] == 0x69 && stem[n - 1]
        == 0x72 {
        assert(stem@.subrange(n - 4, n as int) =~= ascii_seq("_dir"@));
        sub_vec(stem, 0, n - 4)
    } else {
        proof {
            if n >= 4 {
                let tail = stem@.subrange(n - 4, n as int);
                assert(tail[0] == stem@[n - 4] && tail[1] == stem@[n - 3] && tail[2] == stem@[n
                    - 2] && tail[3] == stem@[n - 1]);
            }
        }
        sub_vec(stem, 0, n)
    }
}

/// The decimal digits of `n`, most significant first.
pub open spec fn spec_decimal(n: int) -> Seq<u8>
    recommends
        n >= 0,
    decreases n when n >= 0
{
    if n < 10 {
        seq![(0x30 + n) as u8]
    } else {
        spec_decimal(n / 10) + seq![(0x30 + n % 10) as u8]
    }
}

/// Digits padded on the left with zeros to a width of three.
pub open spec fn spec_pad3(digits: Seq<u8>) -> Seq<u8> {
    if digits.len() >= 3 {
        digits
    } else if digits.len() == 2 {
        seq![0x30u8] + digits
    } else {
        seq![0x30u8, 0x30u8] + digits
    }
}

/// Appends the decimal digits of `n` to `out`.
fn push_decimal(n: u16, out: &mut Vec<u8>)
    ensures
        final(out)@ == old(out)@ + spec_decimal(n as int),
    decreases n,
{
    if n < 10 {
        out.push(0x30 + n as u8);
        assert(out@ =~= old(out)@ + spec_decimal(n as int));
    } else {
        push_decimal(n / 10, out);
        let ghost mid = out@;
        out.push(0x30 + (n % 10) as u8);
        assert(out@ =~= old(out)@ + spec_decimal(n as int));
    }
}

/// The file name of a numbered archive: the base name, an underscore, the
/// archive index in decimal padded to at least three digits, and `.vpk`.
pub open spec fn spec_external_archive_name(base: Seq<u8>, index: int) -> Seq<u8> {
    base + seq![0x5fu8] + spec_pad3(spec_decimal(index)) + ascii_seq(".vpk"@)
}

/// Decimal digits are never empty and hold digit bytes.
proof fn lemma_decimal_len(n: int)
    requires
        n >= 0,
    ensures
        spec_decimal(n).len() >= 1,
    decreases n,
{
    if n >= 10 {
        lemma_decimal_len(n / 10);
    }
}

/// Builds the numbered archive file name that holds an external entry.
pub fn external_archive_name(base: &Vec<u8>, index: u16) -> (r: Vec<u8>)
    ensures
        r@ == spec_external_archive_name(base@, index as int),
{
    proof {
        reveal_strlit(".vpk");
    }
    let mut digits: Vec<u8> = Vec::new();
    push_decimal(index, &mut digits);
    let mut r: Vec<u8> = Vec::new();
    push_all(&mut r, base);
    r.push(0x5f);
    proof {
        lemma_decimal_len(index as int);
    }
    if digits.len() == 1 {
        r.push(0x30);
        r.push(0x30);
    } else if digits.len() == 2 {
        r.push(0x30);
    }
    push_all(&mut r, &digits);
    r.push(0x2e);
    r.push(0x76);
    r.push(0x70);
    r.push(0x6b);
    assert(r@ =~= spec_external_archive_name(base@, index as int));
    r
}

/// What one extraction attempt on a directory file yields: the decoded
/// metadata when the manifest was stored inline, or the entry whose bytes
/// must first be read from a numbered archive file.
#[derive(Debug, PartialEq, Eq)]
pub enum ExtractOutcome {
    /// The manifest was inline and its fields are decoded.
    Done(ExtractedData),
    /// The manifest lives in a numbered archive: retrieve that file's bytes,
    /// then finish with `extract_from_archive`.
    External(DirectoryEntry),
}

/// Reads the addon metadata out of a directory file's bytes.
///
/// Parses the header and tree, looks up the manifest key `" /addoninfo.txt"`
/// by exact match, and retrieves the entry's bytes. A missing entry is the
/// extraction failure — callers that prefer default metadata can treat that
/// error as an all-`"N/A"` record. An inline entry is decoded here; an
/// external entry is handed back for the caller to read its archive file.
pub fn extract_addon_data(bytes: &Vec<u8>) -> (r: Result<ExtractOutcome, VpkError>)
    ensures
        match spec_parse_vpk(bytes@) {
            None => r == Err::<ExtractOutcome, VpkError>(VpkError::Format),
            Some((ts, items)) => match spec_find_entry(items, addon_info_key_spec()) {
                None => r == Err::<ExtractOutcome, VpkError>(VpkError::Extraction),
                Some(e) => if e.archive_index == 0x7fff {
                    match spec_inline_content(bytes@, ts as int, e) {
                        Some(content) => r matches Ok(ExtractOutcome::Done(d)) && field_from(
                            spec_lines(content),
                            key_title(),
                            d.title@,
                        ) && field_from(spec_lines(content), key_version(), d.version@)
                            && field_from(spec_lines(content), key_description(), d.description@),
                        None => r == Err::<ExtractOutcome, VpkError>(VpkError::Extraction),
                    }
                } else {
                    r == Ok::<ExtractOutcome, VpkError>(ExtractOutcome::External(e))
                },
            },
        },
{
    let dir = match parse_vpk(bytes) {
        Ok(d) => d,
        Err(_) => {
            return Err(VpkError::Format);
        },
    };
    let key = addon_info_key();
    let entry = match dir.find_entry(&key) {
        Some(e) => e,
        None => {
            return Err(VpkError::Extraction);
        },
    };
    if entry.is_inline() {
        match dir.inline_content(bytes, &entry) {
            Some(content) => Ok(ExtractOutcome::Done(extract_fields(&content))),
            None => Err(VpkError::Extraction),
        }
    } else {
        Ok(ExtractOutcome::External(entry))
    }
}

/// Finishes an extraction whose manifest lives in a numbered archive file:
/// retrieves the entry's span from that file's bytes and decodes the fields.
pub fn extract_from_archive(archive_bytes: &Vec<u8>, e: &DirectoryEntry) -> (r: Result<
    ExtractedData,
    VpkError,
>)
    ensures
        match spec_external_content(archive_bytes@, *e) {
            Some(content) => r matches Ok(d) && field_from(
                spec_lines(content),
                key_title(),
                d.title@,
            ) && field_from(spec_lines(content), key_version(), d.version@) && field_from(
                spec_lines(content),
                key_description(),
                d.description@,
            ),
            None => r == Err::<ExtractedData, VpkError>(VpkError::Extraction),
        },
{
    match external_content(archive_bytes, e) {
        Some(content) => Ok(extract_fields(&content)),
        None => Err(VpkError::Extraction),
    }
}

} // verus!
