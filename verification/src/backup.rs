//! Backup integrity and the PuG-mode and reset decision tables.
//!
//! An unmodified `gameinfo.txt` is recognised by its MD5 digest. Switching
//! PuG mode shuffles three files — `gameinfo.txt`, its pristine backup, and
//! the user's custom copy — and which copies happen depends only on which
//! files exist and whether the digest matches; those decisions live here as
//! plain functions, while the caller performs the copies they call for.

use vstd::prelude::*;
use md5::{Digest, Md5};
use crate::bytes::{ascii_bytes, ascii_seq, push_all};

verus! {

/// What the MD5 digest of the given bytes is: 16 bytes, a function of the
/// input alone.
pub uninterp spec fn md5_of(bytes: Seq<u8>) -> Seq<u8>;

/// Relies on the md-5 crate's `Md5` digest: the result depends on the input
/// bytes alone and is always 16 bytes long.
#[verifier::external_body]
fn md5_digest(b: &Vec<u8>) -> (r: Vec<u8>)
    ensures
        r@ == md5_of(b@),
        r@.len() == 16,
{
    Md5::digest(b.as_slice()).as_slice().to_vec()
}

/// The lower-case hexadecimal digit of a value below sixteen.
pub open spec fn hex_digit(n: int) -> char {
    if n == 0 {
        '0'
    } else if n == 1 {
        '1'
    } else if n == 2 {
        '2'
    } else if n == 3 {
        '3'
    } else if n == 4 {
        '4'
    } else if n == 5 {
        '5'
    } else if n == 6 {
        '6'
    } else if n == 7 {
        '7'
    } else if n == 8 {
        '8'
    } else if n == 9 {
        '9'
    } else if n == 10 {
        'a'
    } else if n == 11 {
        'b'
    } else if n == 12 {
        'c'
    } else if n == 13 {
        'd'
    } else if n == 14 {
        'e'
    } else {
        'f'
    }
}

/// The lower-case hexadecimal rendering of bytes, two digits each.
pub open spec fn hex_of(bytes: Seq<u8>) -> Seq<char>
    decreases bytes.len(),
{
    if bytes.len() == 0 {
        Seq::empty()
    } else {
        hex_of(bytes.drop_last()) + seq![
            hex_digit(bytes.last() as int / 16),
            hex_digit(bytes.last() as int % 16),
        ]
    }
}

/// Hexadecimal takes two characters per byte.
pub proof fn lemma_hex_len(bytes: Seq<u8>)
    ensures
        hex_of(bytes).len() == 2 * bytes.len(),
    decreases bytes.len(),
{
    if bytes.len() > 0 {
        lemma_hex_len(bytes.drop_last());
    }
}

/// Renders bytes as lower-case hexadecimal.
pub fn hex_string(bytes: &Vec<u8>) -> (r: String)
    ensures
        r@ == hex_of(bytes@),
{
    let table = "0123456789abcdef";
    proof {
        reveal_strlit("0123456789abcdef");
    }
    let mut r = String::new();
    let n = bytes.len();
    let mut i: usize = 0;
    proof {
        assert(bytes@.take(0) =~= Seq::<u8>::empty());
    }
    while i < n
        invariant
            n == bytes@.len(),
            0 <= i <= n,
            table@ == "0123456789abcdef"@,
            table.is_ascii(),
            table@.len() == 16,
            r@ == hex_of(bytes@.take(i as int)),
        decreases n - i,
    {
        let b = bytes[i];
        let hi = (b / 16) as usize;
        let lo = (b % 16) as usize;
        let ghost r0 = r@;
        r.append(table.substring_ascii(hi, hi + 1));
        r.append(table.substring_ascii(lo, lo + 1));
        proof {
            reveal_strlit("0123456789abcdef");
            assert(table@.subrange(hi as int, hi + 1) =~= seq![table@[hi as int]]);
            assert(table@.subrange(lo as int, lo + 1) =~= seq![table@[lo as int]]);
            assert(table@[hi as int] == hex_digit(hi as int));
            assert(table@[lo as int] == hex_digit(lo as int));
            let taken = bytes@.take(i + 1);
            assert(taken.drop_last() =~= bytes@.take(i as int));
            assert(taken.last() == bytes@[i as int]);
            assert(r@ =~= r0 + seq![hex_digit(hi as int), hex_digit(lo as int)]);
        }
        i += 1;
    }
    proof {
        assert(bytes@.take(n as int) =~= bytes@);
    }
    r
}

/// The MD5 digest of the given bytes, as thirty-two lower-case hexadecimal
/// characters — the form the backup checks compare against.
pub fn calculate_md5(bytes: &Vec<u8>) -> (r: String)
    ensures
        r@ == hex_of(md5_of(bytes@)),
        r@.len() == 32,
{
    let digest = md5_digest(bytes);
    proof {
        lemma_hex_len(digest@);
    }
    hex_string(&digest)
}

/// The digest of the pristine `gameinfo.txt` this manager expects.
pub fn default_gameinfo_md5() -> (s: String)
    ensures
        s@ == "586b3b0b39bc44ddfb07792b1932c479"@,
{
    String::from_str("586b3b0b39bc44ddfb07792b1932c479")
}

/// Where the gameinfo.txt backup lives, decided from the two overrides.
#[derive(Debug, PartialEq, Eq)]
pub enum BackupPathChoice {
    /// The path override names a file: use it as it stands.
    EnvPath,
    /// The path override names no file: fail.
    EnvPathNotFile,
    /// The name override is empty, so it names no file: fail.
    EmptyName,
    /// The name override, as a path relative to the game's installation
    /// directory; whether the file exists there is the caller's check.
    Named(Vec<u8>),
    /// No override: the default `gameinfo.txt.orig` beside the gameinfo.
    Default,
}

/// The path of a named backup relative to the game's installation directory.
pub open spec fn spec_backup_place(name: Seq<u8>) -> Seq<u8> {
    ascii_seq("left4dead2/"@) + name
}

/// Decides where the backup file lives. A set path override wins and must
/// name a file; otherwise a set name override names a file under the game's
/// `left4dead2` directory, and an empty name is refused; otherwise the
/// default location holds.
pub fn backup_path_choice(path_env_is_file: Option<bool>, name_env: Option<&Vec<u8>>) -> (r:
    BackupPathChoice)
    ensures
        match path_env_is_file {
            Some(true) => r is EnvPath,
            Some(false) => r is EnvPathNotFile,
            None => match name_env {
                Some(name) => if name@.len() == 0 {
                    r is EmptyName
                } else {
                    r matches BackupPathChoice::Named(p) && p@ == spec_backup_place(name@)
                },
                None => r is Default,
            },
        },
{
    proof {
        reveal_strlit("left4dead2/");
    }
    match path_env_is_file {
        Some(true) => BackupPathChoice::EnvPath,
        Some(false) => BackupPathChoice::EnvPathNotFile,
        None => match name_env {
            Some(name) => {
                if name.len() == 0 {
                    BackupPathChoice::EmptyName
                } else {
                    let mut place = ascii_bytes("left4dead2/");
                    push_all(&mut place, name);
                    BackupPathChoice::Named(place)
                }
            },
            None => BackupPathChoice::Default,
        },
    }
}

/// What switching PuG mode does, decided from which files exist and whether
/// `gameinfo.txt` still has its pristine digest.
#[derive(Clone, Copy, PartialEq, Eq, Structural, Debug)]
pub enum PugSwitchPlan {
    /// `gameinfo.txt` is modified but no backup exists: fail, change nothing.
    FailModifiedNoBackup,
    /// Back the pristine file up first; then fail, since no custom copy
    /// exists to switch to.
    BackupThenFailNoCustom,
    /// Back the pristine file up first; then restore the custom copy over
    /// `gameinfo.txt` and delete it — PuG mode ends disabled.
    BackupThenDisable,
    /// Save the current file as the custom copy and restore the backup over
    /// `gameinfo.txt` — PuG mode ends enabled.
    Enable,
    /// Restore the custom copy over `gameinfo.txt` and delete it — PuG mode
    /// ends disabled.
    Disable,
}

/// Decides what switching PuG mode must do. Every combination of the three
/// observations maps to exactly one plan.
pub fn pug_switch_plan(backup_exists: bool, md5_matches: bool, custom_exists: bool) -> (r:
    PugSwitchPlan)
    ensures
        !backup_exists && !md5_matches ==> r == PugSwitchPlan::FailModifiedNoBackup,
        !backup_exists && md5_matches && !custom_exists ==> r
            == PugSwitchPlan::BackupThenFailNoCustom,
        !backup_exists && md5_matches && custom_exists ==> r == PugSwitchPlan::BackupThenDisable,
        backup_exists && !md5_matches ==> r == PugSwitchPlan::Enable,
        backup_exists && md5_matches ==> r == PugSwitchPlan::Disable,
{
    if !backup_exists {
        if !md5_matches {
            PugSwitchPlan::FailModifiedNoBackup
        } else if !custom_exists {
            PugSwitchPlan::BackupThenFailNoCustom
        } else {
            PugSwitchPlan::BackupThenDisable
        }
    } else {
        if !md5_matches {
            PugSwitchPlan::Enable
        } else {
            PugSwitchPlan::Disable
        }
    }
}

/// The status code PuG-mode checking reports: 1 when the custom copy exists
/// (PuG mode enabled), 2 when it does not (disabled).
pub fn pug_check_status(custom_exists: bool) -> (r: i32)
    ensures
        r == if custom_exists {
            1i32
        } else {
            2i32
        },
{
    if custom_exists {
        1
    } else {
        2
    }
}

/// What resetting `gameinfo.txt` does, decided from whether a backup exists
/// and whether the file still has its pristine digest.
#[derive(Clone, Copy, PartialEq, Eq, Structural, Debug)]
pub enum ResetPlan {
    /// Modified file but no backup to restore: warn, change nothing.
    WarnModifiedNoBackup,
    /// The file is already at its default state: fail, change nothing.
    FailAlreadyDefault,
    /// Restore the backup over `gameinfo.txt`.
    Restore,
}

/// Decides what a reset must do. Every combination of the two observations
/// maps to exactly one plan.
pub fn reset_plan(backup_exists: bool, md5_matches: bool) -> (r: ResetPlan)
    ensures
        !backup_exists && !md5_matches ==> r == ResetPlan::WarnModifiedNoBackup,
        md5_matches ==> r == ResetPlan::FailAlreadyDefault,
        backup_exists && !md5_matches ==> r == ResetPlan::Restore,
{
    if md5_matches {
        ResetPlan::FailAlreadyDefault
    } else if backup_exists {
        ResetPlan::Restore
    } else {
        ResetPlan::WarnModifiedNoBackup
    }
}

} // verus!
