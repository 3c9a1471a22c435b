//! The dotfile scanner: which entries of a directory listing are dotfiles.
//!
//! The listing itself comes from the caller, as one `DirEntry` per entry at
//! the directory's top level; the library decides which names to keep.

use vstd::prelude::*;

verus! {

/// One entry of a directory listing, reduced to what the scanner reads:
/// the entry's name where it is representable in UTF-8 (`None` where it is
/// not), and whether the entry is a regular file (symlinks and directories
/// are not).
pub struct DirEntry {
    pub name: Option<String>,
    pub is_regular_file: bool,
}

/// Whether the scanner keeps an entry: a regular file whose UTF-8 name
/// begins with a period.
pub open spec fn is_dotfile_entry(e: DirEntry) -> bool {
    &&& e.is_regular_file
    &&& e.name is Some
    &&& e.name->0@.len() > 0
    &&& e.name->0@[0] == '.'
}

/// The names the scanner returns for a listing, in listing order.
pub open spec fn dotfile_names(entries: Seq<DirEntry>) -> Seq<Seq<char>>
    decreases entries.len(),
{
    if entries.len() == 0 {
        Seq::empty()
    } else if is_dotfile_entry(entries[0]) {
        seq![entries[0].name->0@] + dotfile_names(entries.skip(1))
    } else {
        dotfile_names(entries.skip(1))
    }
}

/// Filters a directory listing down to the dotfile names: the names of the
/// regular files whose name starts with `.`, in listing order. Entries whose
/// name is not UTF-8-representable are skipped.
pub fn scan_dotfiles(entries: Vec<DirEntry>) -> (r: Vec<String>)
    ensures
        r@.map_values(|s: String| s@) == dotfile_names(entries@),
{
    let mut r: Vec<String> = Vec::new();
    let mut i: usize = 0;
    proof {
        assert(entries@.skip(0) =~= entries@);
        assert(r@.map_values(|s: String| s@) =~= Seq::<Seq<char>>::empty());
        assert(Seq::<Seq<char>>::empty() + dotfile_names(entries@) =~= dotfile_names(entries@));
    }
    while i < entries.len()
        invariant
            i <= entries.len(),
            dotfile_names(entries@) == r@.map_values(|s: String| s@) + dotfile_names(
                entries@.skip(i as int),
            ),
        decreases entries.len() - i,
    {
        let ghost pre = r@;
        let e = &entries[i];
        proof {
            assert(entries@.skip(i as int)[0] == entries@[i as int]);
            assert(entries@.skip(i as int).skip(1) =~= entries@.skip(i + 1));
        }
        match &e.name {
            Some(n) => {
                if e.is_regular_file && starts_with_dot(n) {
                    r.push(n.clone());
                    proof {
                        assert(r@.map_values(|s: String| s@) =~= pre.map_values(
                            |s: String| s@,
                        ).push(n@));
                        assert(pre.map_values(|s: String| s@).push(n@) + dotfile_names(
                            entries@.skip(i + 1),
                        ) =~= pre.map_values(|s: String| s@) + dotfile_names(
                            entries@.skip(i as int),
                        ));
                    }
                }
            },
            None => {},
        }
        i = i + 1;
    }
    proof {
        assert(entries@.skip(entries@.len() as int) =~= Seq::<DirEntry>::empty());
        assert(r@.map_values(|s: String| s@) + Seq::<Seq<char>>::empty() =~= r@.map_values(
            |s: String| s@,
        ));
    }
    r
}

/// Whether a name begins with a period.
pub fn starts_with_dot(s: &String) -> (r: bool)
    ensures
        r == (s@.len() > 0 && s@[0] == '.'),
{
    if s.as_str().unicode_len() == 0 {
        false
    } else {
        s.as_str().get_char(0) == '.'
    }
}

} // verus!
