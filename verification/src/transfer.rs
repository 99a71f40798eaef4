//! The chunked transfer primitive: bytes move from a source to a sink in
//! chunks of a fixed size, and every chunk is reported to a progress
//! tracker as it lands. Memory use is bounded by the chunk size, never by
//! the payload.
//!
//! The local sink side is modelled by [`LocalStore`]: named byte files and
//! directories, where creating a name that already exists is refused.

use vstd::prelude::*;
use vstd::slice::slice_subrange;
use crate::progress::Progress;
use crate::text::str_eq;

verus! {

/// The sizes of the chunks a payload of `len` bytes is moved in, when each
/// chunk carries at most `c` bytes and only the last may be short.
pub open spec fn chunk_sizes(len: nat, c: nat) -> Seq<nat>
    decreases len,
{
    if c == 0 {
        Seq::empty()
    } else if len == 0 {
        Seq::empty()
    } else if len <= c {
        seq![len]
    } else {
        seq![c] + chunk_sizes((len - c) as nat, c)
    }
}

/// The sum of a sequence of sizes.
pub open spec fn size_sum(s: Seq<nat>) -> nat
    decreases s.len(),
{
    if s.len() == 0 {
        0
    } else {
        s[0] + size_sum(s.drop_first())
    }
}

/// The chunks of a transfer account for the payload exactly: their sizes
/// sum to the payload length, and every chunk is non-empty and no larger
/// than the chunk size.
pub proof fn lemma_chunk_sizes_sum(len: nat, c: nat)
    requires
        c >= 1,
    ensures
        size_sum(chunk_sizes(len, c)) == len,
        forall|i: int|
            0 <= i < chunk_sizes(len, c).len() ==> 0 < #[trigger] chunk_sizes(len, c)[i] <= c,
    decreases len,
{
    if len == 0 {
    } else if len <= c {
        assert(chunk_sizes(len, c) =~= seq![len]);
        assert(chunk_sizes(len, c).drop_first() =~= Seq::<nat>::empty());
        assert(size_sum(chunk_sizes(len, c)) == len + size_sum(Seq::<nat>::empty()));
    } else {
        lemma_chunk_sizes_sum((len - c) as nat, c);
        assert(chunk_sizes(len, c).drop_first() =~= chunk_sizes((len - c) as nat, c));
        assert(chunk_sizes(len, c)[0] == c);
        assert(size_sum(chunk_sizes(len, c)) == c + size_sum(chunk_sizes((len - c) as nat, c)));
    }
}

/// Copies `source` into `sink` in chunks of at most `chunk_size` bytes,
/// reporting each chunk to tracker `h` of the ledger as it is written.
/// Returns the number of bytes written, which is exactly the source length
/// and exactly the sum of the chunk sizes read.
pub fn chunked_copy(
    source: &Vec<u8>,
    chunk_size: usize,
    sink: &mut Vec<u8>,
    ledger: &mut Progress,
    h: usize,
) -> (bytes: u64)
    requires
        chunk_size >= 1,
        old(sink)@.len() == 0,
        old(ledger).wf(),
        h < old(ledger)@.len(),
    ensures
        final(sink)@ == source@,
        bytes == source@.len(),
        bytes == size_sum(chunk_sizes(source@.len() as nat, chunk_size as nat)),
        final(ledger).wf(),
        final(ledger)@.len() == old(ledger)@.len(),
        forall|i: int|
            0 <= i < old(ledger)@.len() && i != h ==> final(ledger)@[i] == old(ledger)@[i],
        final(ledger)@[h as int].total == old(ledger)@[h as int].total,
        final(ledger)@[h as int].label == old(ledger)@[h as int].label,
        final(ledger)@[h as int].finished == old(ledger)@[h as int].finished,
        final(ledger)@[h as int].current == if old(ledger)@[h as int].current + source@.len()
            <= old(ledger)@[h as int].total {
            old(ledger)@[h as int].current + source@.len()
        } else {
            old(ledger)@[h as int].total as int
        },
{
    let total_len = source.len();
    let mut i: usize = 0;
    while i < total_len
        invariant
            i <= total_len,
            total_len == source@.len(),
            total_len <= u64::MAX,
            chunk_size >= 1,
            sink@ == source@.take(i as int),
            ledger.wf(),
            ledger@.len() == old(ledger)@.len(),
            h < ledger@.len(),
            forall|k: int|
                0 <= k < old(ledger)@.len() && k != h ==> ledger@[k] == old(ledger)@[k],
            ledger@[h as int].total == old(ledger)@[h as int].total,
            ledger@[h as int].label == old(ledger)@[h as int].label,
            ledger@[h as int].finished == old(ledger)@[h as int].finished,
            ledger@[h as int].current == if old(ledger)@[h as int].current + i <= old(ledger)@[h as int].total {
                old(ledger)@[h as int].current + i
            } else {
                old(ledger)@[h as int].total as int
            },
        decreases total_len - i,
    {
        let n = if total_len - i < chunk_size {
            total_len - i
        } else {
            chunk_size
        };
        let chunk = slice_subrange(source.as_slice(), i, i + n);
        sink.extend_from_slice(chunk);
        ledger.inc(h, n as u64);
        proof {
            assert(sink@ =~= source@.take(i + n));
        }
        i += n;
    }
    proof {
        assert(final(sink)@ =~= source@);
        lemma_chunk_sizes_sum(source@.len() as nat, chunk_size as nat);
    }
    i as u64
}

/// A named byte file of the local store.
pub struct StoredFile {
    pub name: String,
    pub data: Vec<u8>,
}

/// The mathematical value of a stored file.
pub struct StoredFileV {
    pub name: Seq<char>,
    pub data: Seq<u8>,
}

impl View for StoredFile {
    type V = StoredFileV;

    open spec fn view(&self) -> StoredFileV {
        StoredFileV { name: self.name@, data: self.data@ }
    }
}

/// The local sink side of all transfers: files and directories by name.
/// Creating a name that is already present is refused, which is what makes
/// a transfer onto a pre-existing path fail for that one item.
pub struct LocalStore {
    files: Vec<StoredFile>,
    dirs: Vec<String>,
}

/// The mathematical value of a local store.
pub struct LocalStoreV {
    pub files: Seq<StoredFileV>,
    pub dirs: Seq<Seq<char>>,
}

impl View for LocalStore {
    type V = LocalStoreV;

    closed spec fn view(&self) -> LocalStoreV {
        LocalStoreV {
            files: self.files@.map_values(|f: StoredFile| f@),
            dirs: self.dirs@.map_values(|d: String| d@),
        }
    }
}

impl LocalStoreV {
    /// Whether a file of that name is present.
    pub open spec fn has_file(self, name: Seq<char>) -> bool {
        exists|i: int| 0 <= i < self.files.len() && (#[trigger] self.files[i]).name == name
    }

    /// Whether a directory of that name is present.
    pub open spec fn has_dir(self, name: Seq<char>) -> bool {
        exists|i: int| 0 <= i < self.dirs.len() && #[trigger] self.dirs[i] == name
    }

    /// The content of the file of that name, when it is present and unique.
    pub open spec fn file_data(self, name: Seq<char>) -> Seq<u8> {
        self.files[choose|i: int|
            0 <= i < self.files.len() && (#[trigger] self.files[i]).name == name].data
    }

    /// The set of file names present.
    pub open spec fn file_names(self) -> Set<Seq<char>> {
        Set::new(|n: Seq<char>| self.has_file(n))
    }
}

impl LocalStore {
    /// File names are unique, and so are directory names.
    pub open spec fn wf(&self) -> bool {
        &&& forall|i: int, j: int|
            0 <= i < j < self@.files.len() ==> (#[trigger] self@.files[i]).name
                != (#[trigger] self@.files[j]).name
        &&& forall|i: int, j: int|
            0 <= i < j < self@.dirs.len() ==> (#[trigger] self@.dirs[i])
                != (#[trigger] self@.dirs[j])
    }

    /// An empty store.
    pub fn new() -> (r: LocalStore)
        ensures
            r@.files == Seq::<StoredFileV>::empty(),
            r@.dirs == Seq::<Seq<char>>::empty(),
            r.wf(),
    {
        proof {
            assert(Seq::<StoredFile>::empty().map_values(|f: StoredFile| f@)
                =~= Seq::<StoredFileV>::empty());
            assert(Seq::<String>::empty().map_values(|d: String| d@) =~= Seq::<Seq<char>>::empty());
        }
        LocalStore { files: Vec::new(), dirs: Vec::new() }
    }

    /// Whether a file named `name` is present.
    pub fn has_file(&self, name: &str) -> (r: bool)
        ensures
            r == self@.has_file(name@),
    {
        let mut i: usize = 0;
        while i < self.files.len()
            invariant
                i <= self.files.len(),
                forall|j: int| 0 <= j < i ==> (#[trigger] self@.files[j]).name != name@,
            decreases self.files.len() - i,
        {
            if str_eq(self.files[i].name.as_str(), name) {
                proof {
                    assert(self@.files[i as int].name == name@);
                }
                return true;
            }
            i += 1;
        }
        false
    }

    /// Whether a directory named `name` is present.
    pub fn has_dir(&self, name: &str) -> (r: bool)
        ensures
            r == self@.has_dir(name@),
    {
        let mut i: usize = 0;
        while i < self.dirs.len()
            invariant
                i <= self.dirs.len(),
                forall|j: int| 0 <= j < i ==> #[trigger] self@.dirs[j] != name@,
            decreases self.dirs.len() - i,
        {
            if str_eq(self.dirs[i].as_str(), name) {
                proof {
                    assert(self@.dirs[i as int] == name@);
                }
                return true;
            }
            i += 1;
        }
        false
    }

    /// Adds a fresh file. The caller must have checked that the name is not
    /// taken, as a transfer does before its first chunk is written.
    pub fn insert_file(&mut self, name: String, data: Vec<u8>)
        requires
            old(self).wf(),
            !old(self)@.has_file(name@),
        ensures
            final(self)@.files == old(self)@.files.push(StoredFileV { name: name@, data: data@ }),
            final(self)@.dirs == old(self)@.dirs,
            final(self).wf(),
            final(self)@.has_file(name@),
            final(self)@.file_data(name@) == data@,
    {
        let ghost fv = StoredFileV { name: name@, data: data@ };
        self.files.push(StoredFile { name, data });
        proof {
            assert(final(self)@.files =~= old(self)@.files.push(fv));
            assert(final(self)@.dirs =~= old(self)@.dirs);
            let n = old(self)@.files.len() as int;
            assert(final(self)@.files[n].name == fv.name);
            assert forall|i: int, j: int|
                0 <= i < j < final(self)@.files.len() implies (#[trigger] final(self)@.files[i]).name
                != (#[trigger] final(self)@.files[j]).name by {
                if j < n {
                    assert(old(self)@.files[i].name != old(self)@.files[j].name);
                } else {
                    assert(final(self)@.files[i] == old(self)@.files[i]);
                    if final(self)@.files[i].name == fv.name {
                        assert(old(self)@.has_file(fv.name));
                    }
                }
            }
            let k = choose|i: int|
                0 <= i < final(self)@.files.len() && (#[trigger] final(self)@.files[i]).name
                    == fv.name;
            if k < n {
                assert(old(self)@.files[k].name == fv.name);
                assert(old(self)@.has_file(fv.name));
            }
            assert(final(self)@.file_data(fv.name) == data@);
        }
    }

    /// Adds a fresh directory. The caller must have checked the name.
    pub fn insert_dir(&mut self, name: String)
        requires
            old(self).wf(),
            !old(self)@.has_dir(name@),
        ensures
            final(self)@.dirs == old(self)@.dirs.push(name@),
            final(self)@.files == old(self)@.files,
            final(self).wf(),
            final(self)@.has_dir(name@),
    {
        let ghost nv = name@;
        self.dirs.push(name);
        proof {
            assert(final(self)@.dirs =~= old(self)@.dirs.push(nv));
            assert(final(self)@.files =~= old(self)@.files);
            let n = old(self)@.dirs.len() as int;
            assert(final(self)@.dirs[n] == nv);
            assert forall|i: int, j: int|
                0 <= i < j < final(self)@.dirs.len() implies (#[trigger] final(self)@.dirs[i])
                != (#[trigger] final(self)@.dirs[j]) by {
                if j < n {
                    assert(old(self)@.dirs[i] != old(self)@.dirs[j]);
                } else {
                    assert(final(self)@.dirs[i] == old(self)@.dirs[i]);
                    if final(self)@.dirs[i] == nv {
                        assert(old(self)@.has_dir(nv));
                    }
                }
            }
        }
    }

    /// The content of the file named `name`, if present.
    pub fn get_file(&self, name: &str) -> (r: Option<&Vec<u8>>)
        requires
            self.wf(),
        ensures
            match r {
                Some(d) => self@.has_file(name@) && d@ == self@.file_data(name@),
                None => !self@.has_file(name@),
            },
    {
        let mut i: usize = 0;
        while i < self.files.len()
            invariant
                self.wf(),
                i <= self.files.len(),
                forall|j: int| 0 <= j < i ==> (#[trigger] self@.files[j]).name != name@,
            decreases self.files.len() - i,
        {
            if str_eq(self.files[i].name.as_str(), name) {
                proof {
                    assert(self@.files[i as int].name == name@);
                    let k = choose|j: int|
                        0 <= j < self@.files.len() && (#[trigger] self@.files[j]).name == name@;
                    assert(k == i as int);
                }
                return Some(&self.files[i].data);
            }
            i += 1;
        }
        None
    }

    /// How many files the store holds.
    pub fn file_count(&self) -> (r: usize)
        ensures
            r == self@.files.len(),
    {
        self.files.len()
    }
}

} // verus!
