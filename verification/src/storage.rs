//! Immutable content-addressed store: bytes in, content id out. To verify is
//! to hash again.
//!
//! Packs carry blobs from one store to another: the magic `NXPACK1`, the
//! number of blobs, and for each blob its length, its hash and its bytes.
//! Numbers have four bytes, least significant first.

use crate::bytes::{
    le_bytes, le_number, le_value, lemma_le_len, lemma_le_round_trip, lemma_le_value, lemma_pow256,
    push_le, same_bytes,
};
use crate::digest::{
    blake3_digest, blake3_hash, content_id, content_id_of, is_content_id, law_content_id_is_valid,
    valid_content_id,
};
use crate::table::TextMap;
use crate::text::{dec_chars, decimal, same_text};
use vstd::prelude::*;
use vstd::slice::*;
use vstd::string::*;

verus! {

/// Most bytes of a blob.
pub const MAX_BLOB: usize = 4 * 1024 * 1024;

/// Most bytes of a pack.
pub const MAX_PACK: usize = 64 * 1024 * 1024;

/// Bytes of a pack before its first blob.
pub const PACK_HEADER_LEN: usize = 11;

/// Bytes of a pack entry before its blob.
pub const PACK_ENTRY_LEN: usize = 36;

/// The bytes that a pack starts with.
pub const PACK_MAGIC: [u8; 7] = [78, 88, 80, 65, 67, 75, 49];

/// Why a store refuses.
#[derive(Debug, Clone, PartialEq, Eq)]
pub enum StoreError {
    /// A file operation failed.
    Io(String),
    /// There is no blob with this id.
    NotFound(String),
    /// The blob or the pack is too large; carries the size.
    TooLarge(usize),
    /// The bytes do not match their id, or the id or pack is malformed.
    Corrupt(String),
}

/// The mathematical value of a [`StoreError`].
pub enum StoreErrorView {
    Io(Seq<char>),
    NotFound(Seq<char>),
    TooLarge(nat),
    Corrupt(Seq<char>),
}

impl View for StoreError {
    type V = StoreErrorView;

    open spec fn view(&self) -> StoreErrorView {
        match self {
            StoreError::Io(s) => StoreErrorView::Io(s@),
            StoreError::NotFound(s) => StoreErrorView::NotFound(s@),
            StoreError::TooLarge(n) => StoreErrorView::TooLarge(*n as nat),
            StoreError::Corrupt(s) => StoreErrorView::Corrupt(s@),
        }
    }
}

/// What a [`StoreError`] says to a reader.
pub open spec fn error_text(e: StoreErrorView) -> Seq<char> {
    match e {
        StoreErrorView::Io(s) => "io: "@ + s,
        StoreErrorView::NotFound(s) => "not found: "@ + s,
        StoreErrorView::TooLarge(n) => "too large: "@ + dec_chars(n) + " bytes"@,
        StoreErrorView::Corrupt(s) => "corrupt: "@ + s,
    }
}

impl StoreError {
    /// What the error says to a reader.
    pub fn to_string(&self) -> (out: String)
        ensures
            out@ == error_text(self@),
    {
        match self {
            StoreError::Io(s) => "io: ".to_owned().concat(s.as_str()),
            StoreError::NotFound(s) => "not found: ".to_owned().concat(s.as_str()),
            StoreError::TooLarge(n) => "too large: ".to_owned().concat(
                decimal(*n as u64).as_str(),
            ).concat(" bytes"),
            StoreError::Corrupt(s) => "corrupt: ".to_owned().concat(s.as_str()),
        }
    }
}

/// The content id of some bytes.
pub fn id_of(bytes: &[u8]) -> (id: String)
    ensures
        id@ == content_id(bytes@),
{
    content_id_of(bytes)
}

/// Volatile content-addressed map. Equal blobs are held once.
#[derive(Debug)]
pub struct MemStore {
    blobs: TextMap<Vec<u8>>,
}

impl View for MemStore {
    type V = Map<Seq<char>, Seq<u8>>;

    /// The blobs by content id.
    closed spec fn view(&self) -> Map<Seq<char>, Seq<u8>> {
        self.blobs@.map_values(|v: Vec<u8>| v@)
    }
}

/// Why some bytes are not what their id says.
pub open spec fn mismatch(id: Seq<char>, bytes: Seq<u8>) -> StoreErrorView {
    StoreErrorView::Corrupt("expected "@ + id + ", computed "@ + content_id(bytes))
}

/// The blobs with one more, under its content id; one that is there is kept.
pub open spec fn with_blob(blobs: Map<Seq<char>, Seq<u8>>, bytes: Seq<u8>) -> Map<
    Seq<char>,
    Seq<u8>,
> {
    if blobs.dom().contains(content_id(bytes)) {
        blobs
    } else {
        blobs.insert(content_id(bytes), bytes)
    }
}

/// The blob with a content id.
pub open spec fn blob_of(blobs: Map<Seq<char>, Seq<u8>>, id: Seq<char>) -> Result<
    Seq<u8>,
    StoreErrorView,
> {
    if blobs.dom().contains(id) {
        Ok(blobs[id])
    } else {
        Err(StoreErrorView::NotFound(id))
    }
}

impl Default for MemStore {
    fn default() -> (s: Self)
        ensures
            s@ == Map::<Seq<char>, Seq<u8>>::empty(),
    {
        Self::new()
    }
}

impl MemStore {
    /// An empty store.
    pub fn new() -> (s: Self)
        ensures
            s@ == Map::<Seq<char>, Seq<u8>>::empty(),
    {
        let s = MemStore { blobs: TextMap::new() };
        assert(s@ =~= Map::<Seq<char>, Seq<u8>>::empty());
        s
    }

    /// Each blob is held under its own content id.
    #[verifier::type_invariant]
    spec fn addressed(self) -> bool {
        forall|id: Seq<char>| #[trigger]
            self.blobs@.dom().contains(id) ==> id == content_id(self.blobs@[id]@)
    }

    /// Stores bytes under their content id. A blob with that id is kept.
    pub fn put(&mut self, bytes: &[u8]) -> (out: Result<String, StoreError>)
        ensures
            match out {
                Ok(id) => {
                    &&& bytes@.len() <= MAX_BLOB
                    &&& id@ == content_id(bytes@)
                    &&& final(self)@ == with_blob(old(self)@, bytes@)
                    &&& final(self)@.dom().len() == old(self)@.dom().len() + if old(
                        self,
                    )@.dom().contains(id@) {
                        0nat
                    } else {
                        1nat
                    }
                },
                Err(e) => {
                    &&& bytes@.len() > MAX_BLOB
                    &&& e@ == StoreErrorView::TooLarge(bytes@.len())
                    &&& final(self)@ == old(self)@
                },
            },
            final(self)@.dom().finite(),
    {
        self.blobs.order_facts();
        assert(self@.dom() =~= self.blobs@.dom());
        if bytes.len() > MAX_BLOB {
            return Err(StoreError::TooLarge(bytes.len()));
        }
        let id = id_of(bytes);
        proof {
            use_type_invariant(&*self);
        }
        if !self.blobs.contains_key(id.as_str()) {
            let mut blobs: TextMap<Vec<u8>> = TextMap::new();
            std::mem::swap(&mut self.blobs, &mut blobs);
            let blob = slice_to_vec(bytes);
            blobs.insert(id.clone(), blob);
            self.blobs = blobs;
            assert(self@ =~= old(self)@.insert(id@, bytes@));
        }
        Ok(id)
    }

    /// The bytes of a content id; they hash to it.
    pub fn get(&self, id: &str) -> (out: Result<&[u8], StoreError>)
        ensures
            match out {
                Ok(b) => blob_of(self@, id@) == Ok::<Seq<u8>, StoreErrorView>(b@) && id@
                    == content_id(b@),
                Err(e) => blob_of(self@, id@) == Err::<Seq<u8>, StoreErrorView>(e@),
            },
    {
        proof {
            use_type_invariant(self);
        }
        match self.blobs.get(id) {
            Some(b) => Ok(b.as_slice()),
            None => Err(StoreError::NotFound(id.to_owned())),
        }
    }

    /// Checks that bytes have the content id that is claimed.
    pub fn verify(id: &str, bytes: &[u8]) -> (out: Result<(), StoreError>)
        ensures
            match out {
                Ok(_) => id@ == content_id(bytes@),
                Err(e) => id@ != content_id(bytes@) && e@ == mismatch(id@, bytes@),
            },
    {
        let actual = id_of(bytes);
        if same_text(actual.as_str(), id) {
            Ok(())
        } else {
            Err(
                StoreError::Corrupt(
                    "expected ".to_owned().concat(id).concat(", computed ").concat(
                        actual.as_str(),
                    ),
                ),
            )
        }
    }

    /// Number of blobs.
    pub fn len(&self) -> (n: usize)
        ensures
            n == self@.dom().len(),
            self@.dom().finite(),
    {
        self.blobs.order_facts();
        assert(self@.dom() =~= self.blobs@.dom());
        self.blobs.len()
    }

    /// Whether there is no blob.
    pub fn is_empty(&self) -> (empty: bool)
        ensures
            empty == (self@.dom().len() == 0),
            self@.dom().finite(),
    {
        self.len() == 0
    }
}

/// Content-addressed directory: a blob stands in a file named by the
/// hexadecimal digits behind the first two, in a directory named by these.
#[derive(Debug, Clone)]
pub struct FsStore {
    dir: String,
}

impl View for FsStore {
    type V = Seq<char>;

    /// The root directory.
    closed spec fn view(&self) -> Seq<char> {
        self.dir@
    }
}

/// Why an id names no file.
pub open spec fn bad_id(id: Seq<char>) -> StoreErrorView {
    StoreErrorView::Corrupt("bad content id "@ + id)
}

/// The blob with a content id, where `file` is what its file holds.
pub open spec fn blob_in(id: Seq<char>, file: Option<Vec<u8>>) -> Result<
    Seq<u8>,
    StoreErrorView,
> {
    if !valid_content_id(id) {
        Err(bad_id(id))
    } else {
        match file {
            None => Err(StoreErrorView::NotFound(id)),
            Some(b) => if id == content_id(b@) {
                Ok(b@)
            } else {
                Err(mismatch(id, b@))
            },
        }
    }
}

impl FsStore {
    /// A store in a directory; nothing is created.
    pub fn new(dir: &str) -> (s: Self)
        ensures
            s@ == dir@,
    {
        FsStore { dir: dir.to_owned() }
    }

    /// The root directory.
    pub fn dir(&self) -> (dir: &str)
        ensures
            dir@ == self@,
    {
        self.dir.as_str()
    }

    /// Directory and file name of a blob, below the root. Only a content id
    /// has one, so neither can hold a slash or a dot.
    pub fn path_for(&self, id: &str) -> (out: Result<(String, String), StoreError>)
        ensures
            match out {
                Ok(p) => {
                    &&& valid_content_id(id@)
                    &&& p.0@ == id@.subrange(3, 5)
                    &&& p.1@ == id@.subrange(5, 67)
                },
                Err(e) => !valid_content_id(id@) && e@ == bad_id(id@),
            },
    {
        if !is_content_id(id) {
            return Err(StoreError::Corrupt("bad content id ".to_owned().concat(id)));
        }
        Ok((id.substring_char(3, 5).to_owned(), id.substring_char(5, 67).to_owned()))
    }

    /// Where bytes are to be stored: their content id, directory and file
    /// name.
    pub fn put(&self, bytes: &[u8]) -> (out: Result<(String, String, String), StoreError>)
        ensures
            match out {
                Ok(p) => {
                    &&& bytes@.len() <= MAX_BLOB
                    &&& p.0@ == content_id(bytes@)
                    &&& p.1@ == p.0@.subrange(3, 5)
                    &&& p.2@ == p.0@.subrange(5, 67)
                },
                Err(e) => bytes@.len() > MAX_BLOB && e@ == StoreErrorView::TooLarge(bytes@.len()),
            },
    {
        if bytes.len() > MAX_BLOB {
            return Err(StoreError::TooLarge(bytes.len()));
        }
        let id = id_of(bytes);
        proof {
            law_content_id_is_valid(bytes@);
        }
        match self.path_for(id.as_str()) {
            Ok(p) => Ok((id, p.0, p.1)),
            Err(e) => Err(e),
        }
    }

    /// The blob with a content id, where `file` is what its file holds,
    /// nothing without one. No byte leaves that does not hash to the id.
    pub fn get(&self, id: &str, file: Option<Vec<u8>>) -> (out: Result<Vec<u8>, StoreError>)
        ensures
            match out {
                Ok(b) => blob_in(id@, file) == Ok::<Seq<u8>, StoreErrorView>(b@),
                Err(e) => blob_in(id@, file) == Err::<Seq<u8>, StoreErrorView>(e@),
            },
    {
        match self.path_for(id) {
            Ok(_) => {},
            Err(e) => return Err(e),
        }
        match file {
            None => Err(StoreError::NotFound(id.to_owned())),
            Some(b) => match MemStore::verify(id, b.as_slice()) {
                Ok(_) => Ok(b),
                Err(e) => Err(e),
            },
        }
    }
}

/// What an import took in.
#[derive(Debug, Clone, Copy, PartialEq, Eq, Structural)]
pub struct ImportReport {
    /// Number of blobs.
    pub blobs: usize,
    /// Bytes of all blobs together.
    pub total_bytes: usize,
}

/// The pack entry of a blob.
pub open spec fn entry_bytes(blob: Seq<u8>) -> Seq<u8> {
    le_bytes(blob.len(), 4) + blake3_hash(blob)@ + blob
}

/// The pack entries of blobs.
pub open spec fn entries_bytes(blobs: Seq<Seq<u8>>) -> Seq<u8>
    decreases blobs.len(),
{
    if blobs.len() == 0 {
        Seq::empty()
    } else {
        entries_bytes(blobs.drop_last()) + entry_bytes(blobs.last())
    }
}

/// The pack of blobs.
pub open spec fn pack_bytes(blobs: Seq<Seq<u8>>) -> Seq<u8> {
    PACK_MAGIC@ + le_bytes(blobs.len(), 4) + entries_bytes(blobs)
}

/// Why blobs cannot be packed behind the first `before` bytes: the first
/// blob that is too large, or that makes the pack too large.
pub open spec fn pack_fault(blobs: Seq<Seq<u8>>, before: nat) -> Option<StoreErrorView>
    decreases blobs.len(),
{
    if blobs.len() == 0 {
        None
    } else if blobs[0].len() > MAX_BLOB {
        Some(StoreErrorView::TooLarge(blobs[0].len()))
    } else if before + PACK_ENTRY_LEN + blobs[0].len() > MAX_PACK {
        Some(StoreErrorView::TooLarge(before + PACK_ENTRY_LEN as nat + blobs[0].len()))
    } else {
        pack_fault(blobs.skip(1), before + PACK_ENTRY_LEN as nat + blobs[0].len())
    }
}

/// The blobs of `n` entries that fill `s`. Each has to be bounded, complete
/// and true to its hash.
pub open spec fn unpacked_entries(s: Seq<u8>, n: nat) -> Result<Seq<Seq<u8>>, StoreErrorView>
    decreases n,
{
    if n == 0 {
        if s.len() > 0 {
            Err(StoreErrorView::Corrupt("trailing bytes after pack"@))
        } else {
            Ok(Seq::empty())
        }
    } else if s.len() < PACK_ENTRY_LEN {
        Err(StoreErrorView::Corrupt("truncated pack entry"@))
    } else {
        let len = le_value(s.take(4));
        let rest = s.skip(PACK_ENTRY_LEN as int);
        if len > MAX_BLOB {
            Err(StoreErrorView::TooLarge(len))
        } else if rest.len() < len {
            Err(StoreErrorView::Corrupt("truncated pack entry"@))
        } else if blake3_hash(rest.take(len as int))@ != s.subrange(4, PACK_ENTRY_LEN as int) {
            Err(StoreErrorView::Corrupt("pack entry does not match its hash"@))
        } else {
            after_blobs(
                seq![rest.take(len as int)],
                unpacked_entries(rest.skip(len as int), (n - 1) as nat),
            )
        }
    }
}

/// Blobs found before, then those found later.
pub open spec fn after_blobs(
    blobs: Seq<Seq<u8>>,
    later: Result<Seq<Seq<u8>>, StoreErrorView>,
) -> Result<Seq<Seq<u8>>, StoreErrorView> {
    match later {
        Ok(more) => Ok(blobs + more),
        Err(e) => Err(e),
    }
}

/// The blobs of a pack.
pub open spec fn unpacked(pack: Seq<u8>) -> Result<Seq<Seq<u8>>, StoreErrorView> {
    if pack.len() > MAX_PACK {
        Err(StoreErrorView::TooLarge(pack.len()))
    } else if pack.len() < 7 || pack.take(7) != PACK_MAGIC@ {
        Err(StoreErrorView::Corrupt("bad pack magic"@))
    } else if pack.len() < PACK_HEADER_LEN {
        Err(StoreErrorView::Corrupt("truncated pack header"@))
    } else {
        unpacked_entries(pack.skip(PACK_HEADER_LEN as int), le_value(pack.subrange(7, 11)))
    }
}

/// The values of blobs.
pub open spec fn blobs_view(blobs: Seq<Vec<u8>>) -> Seq<Seq<u8>> {
    Seq::new(blobs.len(), |i: int| blobs[i]@)
}

/// Bytes of all blobs together.
pub open spec fn total_len(blobs: Seq<Seq<u8>>) -> nat
    decreases blobs.len(),
{
    if blobs.len() == 0 {
        0
    } else {
        total_len(blobs.drop_last()) + blobs.last().len()
    }
}

/// Packs blobs.
pub fn pack_blobs(blobs: &Vec<Vec<u8>>) -> (out: Result<Vec<u8>, StoreError>)
    ensures
        match out {
            Ok(pack) => pack_fault(blobs_view(blobs@), PACK_HEADER_LEN as nat) is None && pack@
                == pack_bytes(blobs_view(blobs@)),
            Err(e) => pack_fault(blobs_view(blobs@), PACK_HEADER_LEN as nat) == Some(e@),
        },
{
    let ghost all = blobs_view(blobs@);
    let mut entries: Vec<u8> = Vec::new();
    let mut total: usize = PACK_HEADER_LEN;
    let mut i: usize = 0;
    assert(all.skip(0) =~= all);
    assert(all.take(0) =~= Seq::empty());
    while i < blobs.len()
        invariant
            i <= blobs@.len(),
            all == blobs_view(blobs@),
            total <= MAX_PACK,
            36 * i <= total,
            pack_fault(all, PACK_HEADER_LEN as nat) == pack_fault(all.skip(i as int), total as nat),
            entries@ == entries_bytes(all.take(i as int)),
        decreases blobs@.len() - i,
    {
        let blob = &blobs[i];
        proof {
            assert(all.skip(i as int)[0] == blob@);
            assert(all.skip(i as int).skip(1) =~= all.skip(i + 1));
            assert(all.take(i + 1).drop_last() =~= all.take(i as int));
            assert(all.take(i + 1).last() == blob@);
        }
        if blob.len() > MAX_BLOB {
            return Err(StoreError::TooLarge(blob.len()));
        }
        if total + PACK_ENTRY_LEN + blob.len() > MAX_PACK {
            return Err(StoreError::TooLarge(total + PACK_ENTRY_LEN + blob.len()));
        }
        push_le(&mut entries, blob.len() as u64, 4);
        entries.extend_from_slice(blake3_digest(blob.as_slice()).as_slice());
        entries.extend_from_slice(blob.as_slice());
        assert(entries@ =~= entries_bytes(all.take(i + 1)));
        total = total + PACK_ENTRY_LEN + blob.len();
        i = i + 1;
    }
    assert(all.take(i as int) =~= all);
    let mut pack: Vec<u8> = Vec::new();
    pack.extend_from_slice(PACK_MAGIC.as_slice());
    push_le(&mut pack, blobs.len() as u64, 4);
    pack.extend_from_slice(entries.as_slice());
    assert(pack@ =~= pack_bytes(all));
    Ok(pack)
}

impl FsStore {
    /// The blobs of a pack, each with its content id. A pack that is not
    /// right in every entry gives none.
    pub fn unpack(pack: &[u8]) -> (out: Result<Vec<(String, Vec<u8>)>, StoreError>)
        ensures
            match out {
                Ok(blobs) => {
                    &&& unpacked(pack@) == Ok::<Seq<Seq<u8>>, StoreErrorView>(
                        Seq::new(blobs@.len(), |i: int| blobs@[i].1@),
                    )
                    &&& forall|i: int|
                        0 <= i < blobs@.len() ==> (#[trigger] blobs@[i]).0@ == content_id(
                            blobs@[i].1@,
                        )
                },
                Err(e) => unpacked(pack@) == Err::<Seq<Seq<u8>>, StoreErrorView>(e@),
            },
    {
        if pack.len() > MAX_PACK {
            return Err(StoreError::TooLarge(pack.len()));
        }
        if pack.len() < 7 {
            return Err(StoreError::Corrupt("bad pack magic".to_owned()));
        }
        let (magic, rest) = pack.split_at(7);
        assert(magic@ =~= pack@.take(7));
        if !same_bytes(magic, PACK_MAGIC.as_slice()) {
            return Err(StoreError::Corrupt("bad pack magic".to_owned()));
        }
        if pack.len() < PACK_HEADER_LEN {
            return Err(StoreError::Corrupt("truncated pack header".to_owned()));
        }
        let (count, body) = rest.split_at(4);
        assert(count@ =~= pack@.subrange(7, 11));
        assert(body@ =~= pack@.skip(11));
        let n = le_number(count);
        let mut left: &[u8] = body;
        let mut blobs: Vec<(String, Vec<u8>)> = Vec::new();
        let ghost mut found: Seq<Seq<u8>> = Seq::empty();
        let mut i: u64 = 0;
        proof {
            if let Ok(more) = unpacked_entries(body@, n as nat) {
                assert(found + more =~= more);
            }
        }
        while i < n
            invariant
                i <= n,
                found == Seq::new(blobs@.len(), |i: int| blobs@[i].1@),
                unpacked(pack@) == unpacked_entries(body@, n as nat),
                unpacked_entries(body@, n as nat) == after_blobs(
                    found,
                    unpacked_entries(left@, (n - i) as nat),
                ),
                forall|j: int|
                    0 <= j < blobs@.len() ==> (#[trigger] blobs@[j]).0@ == content_id(blobs@[j].1@),
            decreases n - i,
        {
            if left.len() < PACK_ENTRY_LEN {
                return Err(StoreError::Corrupt("truncated pack entry".to_owned()));
            }
            let (head, tail) = left.split_at(PACK_ENTRY_LEN);
            let (len_bytes, hash) = head.split_at(4);
            assert(len_bytes@ =~= left@.take(4));
            assert(hash@ =~= left@.subrange(4, 36));
            assert(tail@ =~= left@.skip(36));
            proof {
                lemma_pow256();
                lemma_le_value(len_bytes@);
            }
            let len64 = le_number(len_bytes);
            let len: usize = len64 as usize;
            if len > MAX_BLOB {
                return Err(StoreError::TooLarge(len));
            }
            if tail.len() < len {
                return Err(StoreError::Corrupt("truncated pack entry".to_owned()));
            }
            let (blob, after) = tail.split_at(len);
            assert(blob@ =~= tail@.take(len as int));
            assert(after@ =~= tail@.skip(len as int));
            if !same_bytes(blake3_digest(blob).as_slice(), hash) {
                return Err(StoreError::Corrupt("pack entry does not match its hash".to_owned()));
            }
            let ghost before = found;
            proof {
                found = found.push(blob@);
                assert(before + seq![blob@] =~= found);
                if let Ok(more) = unpacked_entries(after@, (n - i - 1) as nat) {
                    assert(before + (seq![blob@] + more) =~= found + more);
                }
            }
            blobs.push((id_of(blob), slice_to_vec(blob)));
            assert(found =~= Seq::new(blobs@.len(), |i: int| blobs@[i].1@));
            left = after;
            i = i + 1;
        }
        if left.len() > 0 {
            return Err(StoreError::Corrupt("trailing bytes after pack".to_owned()));
        }
        assert(found + Seq::<Seq<u8>>::empty() =~= found);
        Ok(blobs)
    }

    /// What an import takes in: the blobs of the pack with their content ids,
    /// and how much that is.
    pub fn import(pack: &[u8]) -> (out: Result<(Vec<(String, Vec<u8>)>, ImportReport), StoreError>)
        ensures
            match out {
                Ok(r) => {
                    let blobs = Seq::new(r.0@.len(), |i: int| r.0@[i].1@);
                    &&& unpacked(pack@) == Ok::<Seq<Seq<u8>>, StoreErrorView>(blobs)
                    &&& forall|i: int|
                        0 <= i < r.0@.len() ==> (#[trigger] r.0@[i]).0@ == content_id(r.0@[i].1@)
                    &&& r.1.blobs == blobs.len()
                    &&& r.1.total_bytes == total_len(blobs)
                },
                Err(e) => unpacked(pack@) == Err::<Seq<Seq<u8>>, StoreErrorView>(e@),
            },
    {
        let blobs = match Self::unpack(pack) {
            Ok(blobs) => blobs,
            Err(e) => return Err(e),
        };
        let ghost all = Seq::new(blobs@.len(), |i: int| blobs@[i].1@);
        let mut total: usize = 0;
        let mut i: usize = 0;
        assert(all.take(0) =~= Seq::empty());
        proof {
            law_unpacked_is_the_pack(pack@);
            lemma_pack_len(all);
        }
        while i < blobs.len()
            invariant
                i <= blobs@.len(),
                all == Seq::new(blobs@.len(), |i: int| blobs@[i].1@),
                total == total_len(all.take(i as int)),
                total_len(all) <= MAX_PACK,
            decreases blobs@.len() - i,
        {
            proof {
                assert(all.take(i + 1).drop_last() =~= all.take(i as int));
                lemma_total_len_prefix(all, i + 1);
            }
            total = total + blobs[i].1.len();
            i = i + 1;
        }
        assert(all.take(i as int) =~= all);
        let report = ImportReport { blobs: blobs.len(), total_bytes: total };
        Ok((blobs, report))
    }
}

proof fn lemma_total_len_prefix(blobs: Seq<Seq<u8>>, n: int)
    requires
        0 <= n <= blobs.len(),
    ensures
        total_len(blobs.take(n)) <= total_len(blobs),
    decreases blobs.len() - n,
{
    if n == blobs.len() {
        assert(blobs.take(n) =~= blobs);
    } else {
        lemma_total_len_prefix(blobs, n + 1);
        assert(blobs.take(n + 1).drop_last() =~= blobs.take(n));
    }
}

proof fn lemma_entries_len(blobs: Seq<Seq<u8>>)
    ensures
        entries_bytes(blobs).len() == PACK_ENTRY_LEN * blobs.len() + total_len(blobs),
    decreases blobs.len(),
{
    if blobs.len() > 0 {
        lemma_entries_len(blobs.drop_last());
        lemma_le_len(blobs.last().len(), 4);
    }
}

proof fn lemma_pack_len(blobs: Seq<Seq<u8>>)
    ensures
        pack_bytes(blobs).len() == PACK_HEADER_LEN + PACK_ENTRY_LEN * blobs.len() + total_len(blobs),
{
    lemma_entries_len(blobs);
    lemma_le_len(blobs.len(), 4);
}

proof fn lemma_entries_front(blobs: Seq<Seq<u8>>)
    requires
        blobs.len() > 0,
    ensures
        entries_bytes(blobs) == entry_bytes(blobs[0]) + entries_bytes(blobs.skip(1)),
    decreases blobs.len(),
{
    if blobs.len() == 1 {
        reveal_with_fuel(entries_bytes, 2);
        assert(blobs.skip(1) =~= Seq::empty());
        assert(blobs.drop_last() =~= Seq::empty());
        assert(entries_bytes(blobs) =~= entry_bytes(blobs[0]) + entries_bytes(blobs.skip(1)));
    } else {
        lemma_entries_front(blobs.drop_last());
        assert(blobs.drop_last().skip(1) =~= blobs.skip(1).drop_last());
        assert(blobs.skip(1).last() == blobs.last());
        assert(entries_bytes(blobs) =~= entry_bytes(blobs[0]) + entries_bytes(blobs.skip(1)));
    }
}

proof fn lemma_unpacked_entries_are(s: Seq<u8>, n: nat)
    ensures
        unpacked_entries(s, n) matches Ok(blobs) ==> blobs.len() == n && s == entries_bytes(blobs),
    decreases n,
{
    if n == 0 {
        assert(s.len() == 0 ==> s =~= Seq::empty());
    } else if let Ok(blobs) = unpacked_entries(s, n) {
        let len = le_value(s.take(4));
        let rest = s.skip(PACK_ENTRY_LEN as int);
        let blob = rest.take(len as int);
        lemma_le_value(s.take(4));
        lemma_unpacked_entries_are(rest.skip(len as int), (n - 1) as nat);
        let more = unpacked_entries(rest.skip(len as int), (n - 1) as nat)->Ok_0;
        assert(blobs == seq![blob] + more);
        assert(blobs.skip(1) =~= more);
        lemma_entries_front(blobs);
        assert(s.take(4) == le_bytes(blob.len(), 4));
        assert(s =~= entry_bytes(blob) + entries_bytes(more));
    }
}

/// A pack that opens is the pack of its blobs: not one byte of it is free.
pub proof fn law_unpacked_is_the_pack(pack: Seq<u8>)
    ensures
        unpacked(pack) matches Ok(blobs) ==> pack == pack_bytes(blobs) && pack.len() <= MAX_PACK,
{
    if let Ok(blobs) = unpacked(pack) {
        let body = pack.skip(PACK_HEADER_LEN as int);
        let count = pack.subrange(7, 11);
        lemma_unpacked_entries_are(body, le_value(count));
        lemma_le_value(count);
        assert(pack =~= pack_bytes(blobs));
    }
}

proof fn lemma_packed_entries_open(blobs: Seq<Seq<u8>>)
    requires
        forall|i: int| 0 <= i < blobs.len() ==> (#[trigger] blobs[i]).len() <= MAX_BLOB,
    ensures
        unpacked_entries(entries_bytes(blobs), blobs.len()) == Ok::<Seq<Seq<u8>>, StoreErrorView>(
            blobs,
        ),
    decreases blobs.len(),
{
    if blobs.len() == 0 {
        assert(blobs =~= Seq::empty());
    } else {
        let blob = blobs[0];
        let more = blobs.skip(1);
        let s = entries_bytes(blobs);
        lemma_entries_front(blobs);
        lemma_pow256();
        lemma_le_round_trip(blob.len(), 4);
        assert(s.take(4) =~= le_bytes(blob.len(), 4));
        assert(s.subrange(4, 36) =~= blake3_hash(blob)@);
        let rest = s.skip(36);
        assert(rest =~= blob + entries_bytes(more));
        assert(rest.take(blob.len() as int) =~= blob);
        assert(rest.skip(blob.len() as int) =~= entries_bytes(more));
        assert forall|i: int| 0 <= i < more.len() implies (#[trigger] more[i]).len()
            <= MAX_BLOB by {
            assert(more[i] == blobs[i + 1]);
        }
        lemma_packed_entries_open(more);
        assert(seq![blob] + more =~= blobs);
    }
}

proof fn lemma_pack_fault(blobs: Seq<Seq<u8>>, before: nat)
    requires
        pack_fault(blobs, before) is None,
        before <= MAX_PACK,
    ensures
        forall|i: int| 0 <= i < blobs.len() ==> (#[trigger] blobs[i]).len() <= MAX_BLOB,
        before + entries_bytes(blobs).len() <= MAX_PACK,
    decreases blobs.len(),
{
    if blobs.len() > 0 {
        lemma_pack_fault(blobs.skip(1), before + PACK_ENTRY_LEN as nat + blobs[0].len());
        lemma_entries_front(blobs);
        lemma_le_len(blobs[0].len(), 4);
        assert forall|i: int| 0 <= i < blobs.len() implies (#[trigger] blobs[i]).len()
            <= MAX_BLOB by {
            if i > 0 {
                assert(blobs[i] == blobs.skip(1)[i - 1]);
            }
        }
    }
}

/// Blobs that can be packed are unpacked as they were.
pub proof fn law_pack_round_trip(blobs: Seq<Seq<u8>>)
    requires
        pack_fault(blobs, PACK_HEADER_LEN as nat) is None,
    ensures
        unpacked(pack_bytes(blobs)) == Ok::<Seq<Seq<u8>>, StoreErrorView>(blobs),
{
    let pack = pack_bytes(blobs);
    lemma_pack_fault(blobs, PACK_HEADER_LEN as nat);
    lemma_pack_len(blobs);
    lemma_entries_len(blobs);
    assert(blobs.len() <= MAX_PACK);
    lemma_pow256();
    lemma_le_round_trip(blobs.len(), 4);
    lemma_packed_entries_open(blobs);
    assert(pack.take(7) =~= PACK_MAGIC@);
    assert(pack.subrange(7, 11) =~= le_bytes(blobs.len(), 4));
    assert(pack.skip(11) =~= entries_bytes(blobs));
}

/// A pack with bytes behind it does not open.
pub proof fn law_trailing_bytes_are_refused(blobs: Seq<Seq<u8>>, junk: Seq<u8>)
    requires
        pack_fault(blobs, PACK_HEADER_LEN as nat) is None,
        junk.len() > 0,
    ensures
        unpacked(pack_bytes(blobs) + junk) is Err,
{
    let pack = pack_bytes(blobs) + junk;
    law_unpacked_is_the_pack(pack);
    if let Ok(got) = unpacked(pack) {
        lemma_pack_fault(blobs, PACK_HEADER_LEN as nat);
        lemma_pack_len(blobs);
        lemma_entries_len(blobs);
        assert(blobs.len() <= MAX_PACK);
        lemma_pow256();
        lemma_le_round_trip(blobs.len(), 4);
        lemma_le_len(got.len(), 4);
        assert(pack.subrange(7, 11) =~= le_bytes(blobs.len(), 4));
        let body = pack.skip(11);
        assert(body =~= entries_bytes(blobs) + junk);
        lemma_trailing_entries(blobs, junk);
    }
}

proof fn lemma_trailing_entries(blobs: Seq<Seq<u8>>, junk: Seq<u8>)
    requires
        junk.len() > 0,
        forall|i: int| 0 <= i < blobs.len() ==> (#[trigger] blobs[i]).len() <= MAX_BLOB,
    ensures
        unpacked_entries(entries_bytes(blobs) + junk, blobs.len()) == Err::<
            Seq<Seq<u8>>,
            StoreErrorView,
        >(StoreErrorView::Corrupt("trailing bytes after pack"@)),
    decreases blobs.len(),
{
    let s = entries_bytes(blobs) + junk;
    if blobs.len() == 0 {
        assert(s =~= junk);
    } else {
        let blob = blobs[0];
        let more = blobs.skip(1);
        lemma_entries_front(blobs);
        lemma_pow256();
        lemma_le_round_trip(blob.len(), 4);
        assert(s.take(4) =~= le_bytes(blob.len(), 4));
        assert(s.subrange(4, 36) =~= blake3_hash(blob)@);
        let rest = s.skip(36);
        assert(rest =~= blob + (entries_bytes(more) + junk));
        assert(rest.take(blob.len() as int) =~= blob);
        assert(rest.skip(blob.len() as int) =~= entries_bytes(more) + junk);
        assert forall|i: int| 0 <= i < more.len() implies (#[trigger] more[i]).len()
            <= MAX_BLOB by {
            assert(more[i] == blobs[i + 1]);
        }
        lemma_trailing_entries(more, junk);
    }
}

/// Bytes that are stored are read back under their content id, and no other
/// blob is touched; storing them again changes nothing.
pub proof fn law_stored_blobs_are_read_back(
    blobs: Map<Seq<char>, Seq<u8>>,
    bytes: Seq<u8>,
    other: Seq<char>,
)
    requires
        !blobs.dom().contains(content_id(bytes)) || blobs[content_id(bytes)] == bytes,
        other != content_id(bytes),
    ensures
        blob_of(with_blob(blobs, bytes), content_id(bytes)) == Ok::<Seq<u8>, StoreErrorView>(bytes),
        blob_of(with_blob(blobs, bytes), other) == blob_of(blobs, other),
        with_blob(with_blob(blobs, bytes), bytes) == with_blob(blobs, bytes),
{
}

/// A new blob is one more, and one that is there already none.
pub proof fn law_new_blobs_count_once(blobs: Map<Seq<char>, Seq<u8>>, bytes: Seq<u8>)
    requires
        blobs.dom().finite(),
    ensures
        with_blob(blobs, bytes).dom().finite(),
        with_blob(blobs, bytes).dom().len() == blobs.dom().len() + if blobs.dom().contains(
            content_id(bytes),
        ) {
            0nat
        } else {
            1nat
        },
{
    if !blobs.dom().contains(content_id(bytes)) {
        assert(with_blob(blobs, bytes).dom() =~= blobs.dom().insert(content_id(bytes)));
    }
}

/// What leaves the file store hashes to the id that was asked for, and a file
/// that holds the bytes of its id is read.
pub proof fn law_files_are_read_by_their_hash(id: Seq<char>, file: Vec<u8>)
    ensures
        blob_in(id, Some(file)) matches Ok(b) ==> b == file@ && content_id(b) == id,
        blob_in(content_id(file@), Some(file)) == Ok::<Seq<u8>, StoreErrorView>(file@),
{
    law_content_id_is_valid(file@);
}

/// A pack is its magic, the number of its blobs, and for each blob in order
/// its length, its hash and its bytes.
pub proof fn law_pack_layout(blobs: Seq<Seq<u8>>, blob: Seq<u8>)
    ensures
        entries_bytes(blobs.push(blob)) == entries_bytes(blobs) + (le_bytes(blob.len(), 4)
            + blake3_hash(blob)@ + blob),
        entries_bytes(Seq::empty()) == Seq::<u8>::empty(),
        pack_bytes(blobs) == PACK_MAGIC@ + le_bytes(blobs.len(), 4) + entries_bytes(blobs),
{
    assert(blobs.push(blob).drop_last() =~= blobs);
}

/// Blobs can be packed exactly where each has at most four mebibytes and all
/// of them, with 36 bytes before each, fit into a pack.
pub proof fn law_what_can_be_packed(blobs: Seq<Seq<u8>>, before: nat)
    requires
        before <= MAX_PACK,
    ensures
        pack_fault(blobs, before) is None <==> (forall|i: int|
            0 <= i < blobs.len() ==> (#[trigger] blobs[i]).len() <= 4194304) && before + 36
            * blobs.len() + total_len(blobs) <= MAX_PACK,
    decreases blobs.len(),
{
    if blobs.len() > 0 {
        let n = before + 36 + blobs[0].len();
        let rest = blobs.skip(1);
        lemma_total_len_first(blobs);
        if blobs[0].len() <= 4194304 && n <= MAX_PACK {
            law_what_can_be_packed(rest, n);
            assert(forall|i: int| 0 <= i < rest.len() ==> #[trigger] rest[i] == blobs[i + 1]);
            if forall|i: int| 0 <= i < rest.len() ==> (#[trigger] rest[i]).len() <= 4194304 {
                assert forall|i: int| 0 <= i < blobs.len() implies (#[trigger] blobs[i]).len()
                    <= 4194304 by {
                    if i > 0 {
                        assert(rest[i - 1] == blobs[i]);
                    }
                }
            }
            if forall|i: int| 0 <= i < blobs.len() ==> (#[trigger] blobs[i]).len() <= 4194304 {
                assert forall|i: int| 0 <= i < rest.len() implies (#[trigger] rest[i]).len()
                    <= 4194304 by {
                    assert(rest[i] == blobs[i + 1]);
                }
            }
        }
    }
}

proof fn lemma_total_len_first(blobs: Seq<Seq<u8>>)
    requires
        blobs.len() > 0,
    ensures
        total_len(blobs) == blobs[0].len() + total_len(blobs.skip(1)),
    decreases blobs.len(),
{
    if blobs.len() == 1 {
        reveal_with_fuel(total_len, 2);
        assert(blobs.skip(1) =~= Seq::empty());
    } else {
        lemma_total_len_first(blobs.drop_last());
        assert(blobs.drop_last().skip(1) =~= blobs.skip(1).drop_last());
        assert(blobs.drop_last()[0] == blobs[0]);
        assert(blobs.skip(1).last() == blobs.last());
    }
}

/// A blob is found under its id, a missing one is told by its id, and a put
/// one is there from then on, as it is.
pub proof fn law_blobs_by_id(
    blobs: Map<Seq<char>, Seq<u8>>,
    bytes: Seq<u8>,
    id: Seq<char>,
)
    ensures
        blobs.dom().contains(id) ==> blob_of(blobs, id) == Ok::<Seq<u8>, StoreErrorView>(blobs[id]),
        !blobs.dom().contains(id) ==> blob_of(blobs, id) == Err::<Seq<u8>, StoreErrorView>(
            StoreErrorView::NotFound(id),
        ),
        with_blob(blobs, bytes).dom() == blobs.dom().insert(content_id(bytes)),
        blobs.dom().contains(id) ==> with_blob(blobs, bytes)[id] == blobs[id],
        !blobs.dom().contains(content_id(bytes)) ==> with_blob(blobs, bytes)[content_id(bytes)]
            == bytes,
{
    assert(with_blob(blobs, bytes).dom() =~= blobs.dom().insert(content_id(bytes)));
}

/// A file is read exactly where the id is one, the file is there, and its
/// bytes hash to the id; a file with other bytes is never handed out.
pub proof fn law_tampered_files_are_refused(id: Seq<char>, file: Option<Vec<u8>>)
    ensures
        blob_in(id, file) is Ok <==> (file matches Some(b) && content_id(b@) == id),
        file is None && valid_content_id(id) ==> blob_in(id, file) == Err::<
            Seq<u8>,
            StoreErrorView,
        >(StoreErrorView::NotFound(id)),
        !valid_content_id(id) ==> (blob_in(id, file) matches Err(e) && e is Corrupt),
        file matches Some(b) ==> (valid_content_id(id) && content_id(b@) != id ==> (blob_in(
            id,
            file,
        ) matches Err(e) && e is Corrupt)),
{
    if let Some(b) = file {
        law_content_id_is_valid(b@);
    }
}

/// The text of an error names its kind and gives what it is about: a blob
/// that does not match its id is told with the id that was asked for and the
/// one that its bytes have.
pub proof fn law_error_texts(n: nat, id: Seq<char>, bytes: Seq<u8>, why: Seq<char>)
    ensures
        error_text(StoreErrorView::Io(why)) == "io: "@ + why,
        error_text(StoreErrorView::NotFound(why)) == "not found: "@ + why,
        error_text(StoreErrorView::TooLarge(n)) == "too large: "@ + dec_chars(n) + " bytes"@,
        error_text(StoreErrorView::Corrupt(why)) == "corrupt: "@ + why,
        mismatch(id, bytes) == StoreErrorView::Corrupt(
            "expected "@ + id + ", computed "@ + content_id(bytes),
        ),
        bad_id(id) == StoreErrorView::Corrupt("bad content id "@ + id),
{
}

/// Why a pack is refused, in the order of the tests on its header.
pub proof fn law_refused_packs(pack: Seq<u8>)
    ensures
        pack.len() > 67108864 ==> unpacked(pack) == Err::<Seq<Seq<u8>>, StoreErrorView>(
            StoreErrorView::TooLarge(pack.len()),
        ),
        pack.len() <= 67108864 && !(pack.len() >= 7 && pack.take(7) == seq![
            78u8,
            88,
            80,
            65,
            67,
            75,
            49,
        ]) ==> unpacked(pack) == Err::<Seq<Seq<u8>>, StoreErrorView>(
            StoreErrorView::Corrupt("bad pack magic"@),
        ),
        7 <= pack.len() < 11 && pack.take(7) == seq![78u8, 88, 80, 65, 67, 75, 49] ==> unpacked(
            pack,
        ) == Err::<Seq<Seq<u8>>, StoreErrorView>(
            StoreErrorView::Corrupt("truncated pack header"@),
        ),
{
    assert(PACK_MAGIC@ =~= seq![78u8, 88, 80, 65, 67, 75, 49]);
}

/// Why the entries of a pack are refused: bytes are missing or left, a blob is
/// too large, or it is not the one that its hash names; an entry that is right
/// is taken, and the rest is read in the same way.
pub proof fn law_refused_entries(s: Seq<u8>, n: nat)
    requires
        n > 0,
    ensures
        s.len() > 0 ==> unpacked_entries(s, 0) == Err::<Seq<Seq<u8>>, StoreErrorView>(
            StoreErrorView::Corrupt("trailing bytes after pack"@),
        ),
        unpacked_entries(Seq::empty(), 0) == Ok::<Seq<Seq<u8>>, StoreErrorView>(Seq::empty()),
        s.len() < 36 ==> unpacked_entries(s, n) == Err::<Seq<Seq<u8>>, StoreErrorView>(
            StoreErrorView::Corrupt("truncated pack entry"@),
        ),
        s.len() >= 36 ==> ({
            let len = le_value(s.take(4)) as int;
            let blob = s.subrange(36, 36 + len);
            unpacked_entries(s, n) == if len > 4194304 {
                Err::<Seq<Seq<u8>>, StoreErrorView>(StoreErrorView::TooLarge(len as nat))
            } else if s.len() < 36 + len {
                Err(StoreErrorView::Corrupt("truncated pack entry"@))
            } else if blake3_hash(blob)@ != s.subrange(4, 36) {
                Err(StoreErrorView::Corrupt("pack entry does not match its hash"@))
            } else {
                match unpacked_entries(s.skip(36 + len), (n - 1) as nat) {
                    Ok(more) => Ok(seq![blob] + more),
                    Err(e) => Err(e),
                }
            }
        }),
{
    if s.len() >= 36 {
        let len = le_value(s.take(4)) as int;
        if s.len() >= 36 + len {
            assert(s.skip(36).take(len) =~= s.subrange(36, 36 + len));
            assert(s.skip(36).skip(len) =~= s.skip(36 + len));
        }
    }
}

} // verus!
