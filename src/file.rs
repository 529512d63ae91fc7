//! The metadata record of one directory entry.
use vstd::prelude::*;
use crate::text::{dot_position, first_dot, has_prefix, starts_with};

verus! {

/// What kind of entry a record describes, as a link-non-following stat reports it.
#[derive(Clone, Copy, Debug, PartialEq, Eq, Structural)]
pub enum FileKind {
    Regular,
    Directory,
    Symlink,
    NamedPipe,
    BlockSpecial,
    Unknown,
}

/// The raw attributes of an entry. `mode` holds the nine POSIX permission
/// bits in their usual places (owner read is `0o400`, other execute `0o001`).
#[derive(Clone, Copy, Debug, PartialEq, Eq, Structural)]
pub struct Stat {
    pub kind: FileKind,
    pub mode: u32,
    pub size: u64,
    pub uid: u32,
    pub gid: u32,
    pub inode: u64,
    pub links: u64,
    pub blocks: u64,
}

/// One directory entry: its name, the extension derived from that name,
/// its full path and its raw attributes.
#[derive(Debug)]
pub struct File {
    pub name: String,
    pub ext: Option<String>,
    pub path: String,
    pub stat: Stat,
}

/// The extension of a name: everything after its first dot, where at least
/// one character must follow that dot. A hidden name (one that begins with
/// a dot) has an extension only when a further dot follows; it is then
/// everything after the leading dot, further dots included, so `.bashrc`
/// has none and `.foo.tar.gz` has `foo.tar.gz`.
pub open spec fn extension_of(name: Seq<char>) -> Option<Seq<char>> {
    if is_hidden(name) {
        if first_dot(name, 1) < name.len() {
            Some(name.subrange(1, name.len() as int))
        } else {
            None
        }
    } else {
        let d = first_dot(name, 0);
        if d + 1 < name.len() {
            Some(name.subrange(d + 1, name.len() as int))
        } else {
            None
        }
    }
}

/// The name up to the dot that opens its extension.
pub open spec fn base_of(name: Seq<char>) -> Seq<char> {
    name.subrange(0, first_dot(name, 0))
}

/// Names that begin with a dot are hidden.
pub open spec fn is_hidden(name: Seq<char>) -> bool {
    name.len() > 0 && name[0] == '.'
}

/// The view of an optional string.
pub open spec fn opt_view(o: Option<String>) -> Option<Seq<char>> {
    match o {
        Some(s) => Some(s@),
        None => None,
    }
}

impl File {
    /// The record's extension is the one derived from its name, as every
    /// record that `new` builds has it.
    pub open spec fn has_derived_ext(&self) -> bool {
        opt_view(self.ext) == extension_of(self.name@)
    }

    /// Builds the record of an entry from the stat taken of it; the
    /// extension is derived from the name.
    pub fn new(name: String, path: String, stat: Stat) -> (r: File)
        ensures
            r.name@ == name@,
            r.path@ == path@,
            r.stat == stat,
            opt_view(r.ext) == extension_of(name@),
            r.has_derived_ext(),
    {
        let ext = File::ext(name.as_str());
        File { name, ext, path, stat }
    }

    /// The extension of `name` (see `extension_of`).
    pub fn ext(name: &str) -> (r: Option<String>)
        ensures
            opt_view(r) == extension_of(name@),
    {
        let n = name.unicode_len();
        if n > 0 && name.get_char(0) == '.' {
            if dot_position(name, 1) < n {
                Some(String::from_str(name.substring_char(1, n)))
            } else {
                None
            }
        } else {
            let d = dot_position(name, 0);
            if d < n && d + 1 < n {
                Some(String::from_str(name.substring_char(d + 1, n)))
            } else {
                None
            }
        }
    }

    /// Whether the entry is hidden: its name begins with a dot.
    pub fn is_dotfile(&self) -> (r: bool)
        ensures
            r == is_hidden(self.name@),
    {
        proof {
            reveal_strlit(".");
        }
        let r = starts_with(self.name.as_str(), ".");
        assert(r == is_hidden(self.name@)) by {
            if self.name@.len() > 0 {
                assert(self.name@.subrange(0, 1)[0] == self.name@[0]);
                if self.name@[0] == '.' {
                    assert(self.name@.subrange(0, 1) =~= "."@);
                }
            }
        }
        r
    }
}

} // verus!
