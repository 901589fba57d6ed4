use crate::bytes::same_bytes;
use vstd::prelude::*;
use vstd::string::*;

verus! {

/// One registered file: the bytes of its path and its content.
pub struct FileEntry {
    pub path: Vec<u8>,
    pub content: Vec<u8>,
}

/// The map that a list of registrations stands for: a later registration of a
/// path replaces an earlier one.
pub open spec fn entries_map(entries: Seq<FileEntry>) -> Map<Seq<u8>, Seq<u8>>
    decreases entries.len(),
{
    if entries.len() == 0 {
        Map::empty()
    } else {
        entries_map(entries.drop_last()).insert(entries.last().path@, entries.last().content@)
    }
}

/// The static asset cache: path to content, filled at startup and read while
/// serving.
pub struct FilesBuf {
    entries: Vec<FileEntry>,
}

impl View for FilesBuf {
    type V = Map<Seq<u8>, Seq<u8>>;

    closed spec fn view(&self) -> Map<Seq<u8>, Seq<u8>> {
        entries_map(self.entries@)
    }
}

impl FilesBuf {
    /// A cache without files.
    pub fn new() -> (files: FilesBuf)
        ensures
            files@ == Map::<Seq<u8>, Seq<u8>>::empty(),
    {
        FilesBuf { entries: Vec::new() }
    }

    /// Registers `content` under `path`.
    pub fn insert(&mut self, path: &str, content: Vec<u8>)
        ensures
            final(self)@ == old(self)@.insert(path.spec_bytes(), content@),
    {
        let entry = FileEntry { path: path.as_bytes_vec(), content };
        self.entries.push(entry);
        proof {
            assert(self.entries@.drop_last() =~= old(self).entries@);
        }
    }

    /// The content registered under `path`.
    pub fn get(&self, path: &str) -> (content: Option<&[u8]>)
        ensures
            match content {
                Some(c) => self@.contains_key(path.spec_bytes()) && self@[path.spec_bytes()] == c@,
                None => !self@.contains_key(path.spec_bytes()),
            },
    {
        let key = path.as_bytes();
        let mut i = self.entries.len();
        proof {
            assert(self.entries@.take(i as int) =~= self.entries@);
        }
        while i > 0
            invariant
                i <= self.entries@.len(),
                key@ == path.spec_bytes(),
                self@.contains_key(key@) == entries_map(self.entries@.take(i as int)).contains_key(
                    key@,
                ),
                self@.contains_key(key@) ==> self@[key@] == entries_map(
                    self.entries@.take(i as int),
                )[key@],
            decreases i,
        {
            proof {
                let upto = self.entries@.take(i as int);
                assert(upto.drop_last() =~= self.entries@.take(i - 1));
                assert(upto.last() == self.entries@[i - 1]);
            }
            i = i - 1;
            if same_bytes(self.entries[i].path.as_slice(), key) {
                return Some(self.entries[i].content.as_slice());
            }
        }
        None
    }
}

} // verus!
