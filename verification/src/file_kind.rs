//! Telling what a path given to the IFC loader holds: a STEP file, or the
//! directory of an attribute store, whose `CURRENT` file names a manifest.
use crate::p21::{is_white_space, trim_start};
use crate::text::chars_of;
use vstd::prelude::*;

verus! {

/// What a path holds.
#[derive(Clone, Copy, Debug, PartialEq, Eq, Structural)]
pub enum FileType {
    IfcSpf,
    RocksDb,
    Unknown,
}

/// Does `s` start with `MANIFEST-` once its leading white space is dropped?
pub open spec fn names_manifest(s: Seq<char>) -> bool {
    let t = trim_start(s);
    t.len() >= 9 && t.take(9) == "MANIFEST-"@
}

/// What a path holds, from what the file system says of it: whether it
/// exists, whether it is a directory, whether the directory holds a
/// regular file `CURRENT`, and that file's text when it could be read. A
/// path that does not exist, or is not a directory, is taken for a STEP
/// file; a directory is an attribute store when its `CURRENT` file names a
/// manifest.
pub fn file_type_of(present: bool, is_dir: bool, current_is_file: bool, current_text: Option<&str>) -> (r: FileType)
    ensures
        r == if !present || !is_dir {
            FileType::IfcSpf
        } else if current_is_file && (current_text matches Some(t) && names_manifest(t@)) {
            FileType::RocksDb
        } else {
            FileType::Unknown
        },
{
    if !present || !is_dir {
        return FileType::IfcSpf;
    }
    if !current_is_file {
        return FileType::Unknown;
    }
    match current_text {
        Some(t) => {
            if starts_with_manifest(t) {
                FileType::RocksDb
            } else {
                FileType::Unknown
            }
        },
        None => FileType::Unknown,
    }
}

fn starts_with_manifest(t: &str) -> (r: bool)
    ensures
        r == names_manifest(t@),
{
    let cs = chars_of(t);
    let mut i: usize = 0;
    assert(cs@.skip(0) =~= cs@);
    while i < cs.len() && is_space(cs[i])
        invariant
            i <= cs@.len(),
            cs@ == t@,
            trim_start(t@) == trim_start(cs@.skip(i as int)),
        decreases cs@.len() - i,
    {
        assert(cs@.skip(i as int).drop_first() =~= cs@.skip(i + 1));
        i = i + 1;
    }
    let m = chars_of("MANIFEST-");
    proof {
        reveal_strlit("MANIFEST-");
    }
    let ghost rest = cs@.skip(i as int);
    assert(trim_start(rest) == rest);
    if cs.len() - i < 9 {
        return false;
    }
    let mut k: usize = 0;
    while k < 9
        invariant
            k <= 9,
            i + 9 <= cs@.len(),
            cs@.len() == cs.len(),
            cs@ == t@,
            rest == cs@.skip(i as int),
            trim_start(t@) == rest,
            m@ == "MANIFEST-"@,
            m@.len() == 9,
            forall|j: int| 0 <= j < k ==> cs@[i + j] == m@[j],
        decreases 9 - k,
    {
        if cs[i + k] != m[k] {
            assert(rest.take(9)[k as int] != "MANIFEST-"@[k as int]);
            return false;
        }
        k = k + 1;
    }
    assert(rest.take(9) =~= "MANIFEST-"@);
    true
}

fn is_space(c: char) -> (r: bool)
    ensures
        r == is_white_space(c),
{
    ('\u{9}' <= c && c <= '\u{d}') || c == ' ' || c == '\u{85}' || c == '\u{a0}' || c == '\u{1680}' || ('\u{2000}'
        <= c && c <= '\u{200a}') || c == '\u{2028}' || c == '\u{2029}' || c == '\u{202f}' || c == '\u{205f}' || c
        == '\u{3000}'
}

} // verus!
