use vstd::prelude::*;

use crate::chunk::{chunk_size_for, chunk_valid, optimal_chunk_size, stored_under_own_hash, views, Chunk, ChunkManager};
use crate::crypto::{content_hash, HashUtils};
use crate::str_map::{distinct, StrMap};

verus! {

/// What the node knows of a shared file.
#[derive(Clone, Debug)]
pub struct FileInfo {
    pub hash: String,
    pub name: String,
    pub size: u64,
    pub chunk_count: usize,
    pub chunk_hashes: Vec<String>,
    pub created_at: u64,
}

/// Two file records that agree in every field.
pub open spec fn same_info(a: FileInfo, b: FileInfo) -> bool {
    &&& a.hash == b.hash
    &&& a.name == b.name
    &&& a.size == b.size
    &&& a.chunk_count == b.chunk_count
    &&& a.chunk_hashes@ == b.chunk_hashes@
    &&& a.created_at == b.created_at
}

/// A copy of a list of strings.
pub fn copy_strings(v: &Vec<String>) -> (r: Vec<String>)
    ensures
        r@ == v@,
{
    let mut r: Vec<String> = Vec::with_capacity(v.len());
    for i in 0..v.len()
        invariant
            r@ == v@.take(i as int),
    {
        r.push(v[i].clone());
        assert(r@ =~= v@.take(i + 1));
    }
    assert(v@.take(v@.len() as int) =~= v@);
    r
}

impl FileInfo {
    /// A copy of the record.
    pub fn duplicate(&self) -> (r: FileInfo)
        ensures
            same_info(r, *self),
    {
        FileInfo {
            hash: self.hash.clone(),
            name: self.name.clone(),
            size: self.size,
            chunk_count: self.chunk_count,
            chunk_hashes: copy_strings(&self.chunk_hashes),
            created_at: self.created_at,
        }
    }
}

/// The pieces that content is cut into: consecutive slices of `cs` bytes, the
/// last one shorter if the length is not a multiple.
pub open spec fn split_pieces(data: Seq<u8>, cs: int) -> Seq<Seq<u8>>
    decreases data.len(),
{
    if cs <= 0 || data.len() == 0 {
        Seq::empty()
    } else if data.len() <= cs {
        seq![data]
    } else {
        seq![data.take(cs)] + split_pieces(data.skip(cs), cs)
    }
}

/// The pieces of a file's content, by the file's chunk size.
pub open spec fn file_pieces(content: Seq<u8>) -> Seq<Seq<u8>> {
    split_pieces(content, chunk_size_for(content.len() as int))
}

/// The pieces, one after another.
pub open spec fn join_pieces(p: Seq<Seq<u8>>) -> Seq<u8>
    decreases p.len(),
{
    if p.len() == 0 {
        Seq::empty()
    } else {
        p[0] + join_pieces(p.drop_first())
    }
}

/// Cutting content into pieces loses nothing and adds nothing: the pieces put
/// back together are the content, and each piece holds between 1 and `cs` bytes.
pub proof fn lemma_split_join(data: Seq<u8>, cs: int)
    requires
        cs > 0,
    ensures
        join_pieces(split_pieces(data, cs)) == data,
        forall|i: int| 0 <= i < split_pieces(data, cs).len() ==> 0 < #[trigger] split_pieces(data, cs)[i].len() <= cs,
    decreases data.len(),
{
    if data.len() == 0 {
    } else if data.len() <= cs {
        let p = split_pieces(data, cs);
        assert(p.drop_first() =~= Seq::<Seq<u8>>::empty());
        assert(join_pieces(p.drop_first()) == Seq::<u8>::empty());
        assert(p[0] == data);
        assert(join_pieces(p) == data + Seq::<u8>::empty());
        assert(data + Seq::<u8>::empty() =~= data);
    } else {
        lemma_split_join(data.skip(cs), cs);
        let p = split_pieces(data, cs);
        assert(p.drop_first() =~= split_pieces(data.skip(cs), cs));
        assert(p[0] == data.take(cs));
        assert(join_pieces(p) == data.take(cs) + data.skip(cs));
        assert(data.take(cs) + data.skip(cs) =~= data);
        assert forall|i: int| 0 <= i < p.len() implies 0 < #[trigger] p[i].len() <= cs by {
            if i > 0 {
                assert(p[i] == split_pieces(data.skip(cs), cs)[i - 1]);
            }
        }
    }
}

/// `info` describes the file `name` with `content`.
pub open spec fn describes(info: FileInfo, name: Seq<char>, content: Seq<u8>, size: u64, created_at: u64) -> bool {
    &&& info.hash@ == content_hash(content)
    &&& info.name@ == name
    &&& info.size == size
    &&& info.chunk_count == file_pieces(content).len()
    &&& views(info.chunk_hashes@) == file_pieces(content).map_values(|p: Seq<u8>| content_hash(p))
    &&& info.created_at == created_at
}

/// Chunks made from pieces: chunk `i` holds piece `i`, with its hash and size.
pub open spec fn chunks_of(cs: Seq<Chunk>, pieces: Seq<Seq<u8>>) -> bool {
    &&& cs.len() == pieces.len()
    &&& forall|i: int|
        0 <= i < cs.len() ==> {
            &&& (#[trigger] cs[i]).index == i
            &&& cs[i].data@ == pieces[i]
            &&& cs[i].hash@ == content_hash(pieces[i])
            &&& cs[i].size == pieces[i].len()
        }
}

/// A map after inserting each chunk under its hash, in order.
pub open spec fn insert_chunks(m: Map<Seq<char>, Chunk>, cs: Seq<Chunk>) -> Map<Seq<char>, Chunk>
    decreases cs.len(),
{
    if cs.len() == 0 {
        m
    } else {
        insert_chunks(m, cs.drop_last()).insert(cs.last().hash@, cs.last())
    }
}

/// An index map after recording each chunk's hash at its index, in order.
pub open spec fn index_chunks(m: Map<int, Seq<char>>, cs: Seq<Chunk>) -> Map<int, Seq<char>>
    decreases cs.len(),
{
    if cs.len() == 0 {
        m
    } else {
        index_chunks(m, cs.drop_last()).insert(cs.last().index as int, cs.last().hash@)
    }
}

/// After chunks are inserted, each of their hashes names a chunk whose data
/// hashes to it.
proof fn lemma_insert_chunks_valid(m: Map<Seq<char>, Chunk>, cs: Seq<Chunk>)
    requires
        forall|i: int| 0 <= i < cs.len() ==> (#[trigger] cs[i]).hash@ == content_hash(cs[i].data@),
    ensures
        forall|i: int| 0 <= i < cs.len() ==> #[trigger] insert_chunks(m, cs).dom().contains(cs[i].hash@)
            && chunk_valid(insert_chunks(m, cs)[cs[i].hash@]),
    decreases cs.len(),
{
    if cs.len() > 0 {
        let init = cs.drop_last();
        lemma_insert_chunks_valid(m, init);
        assert(insert_chunks(m, cs) == insert_chunks(m, init).insert(cs.last().hash@, cs.last()));
        assert(chunk_valid(cs[cs.len() - 1]));
        assert forall|i: int| 0 <= i < cs.len() implies #[trigger] insert_chunks(m, cs).dom().contains(cs[i].hash@)
            && chunk_valid(insert_chunks(m, cs)[cs[i].hash@]) by {
            if i < cs.len() - 1 {
                assert(init[i] == cs[i]);
            }
        }
    }
}

/// Every chunk that the record of an added file lists can be served: it is in
/// the store, with data that hashes to it.
pub proof fn lemma_added_chunks_available(
    info: FileInfo,
    name: Seq<char>,
    content: Seq<u8>,
    size: u64,
    created_at: u64,
    m: Map<Seq<char>, Chunk>,
    cs: Seq<Chunk>,
)
    requires
        describes(info, name, content, size, created_at),
        chunks_of(cs, file_pieces(content)),
    ensures
        forall|i: int| 0 <= i < info.chunk_hashes@.len() ==> #[trigger] insert_chunks(m, cs).dom().contains(info.chunk_hashes@[i]@)
            && chunk_valid(insert_chunks(m, cs)[info.chunk_hashes@[i]@]),
{
    let pieces = file_pieces(content);
    lemma_insert_chunks_valid(m, cs);
    assert forall|i: int| 0 <= i < info.chunk_hashes@.len() implies #[trigger] insert_chunks(m, cs).dom().contains(info.chunk_hashes@[i]@)
        && chunk_valid(insert_chunks(m, cs)[info.chunk_hashes@[i]@]) by {
        assert(views(info.chunk_hashes@).len() == info.chunk_hashes@.len());
        assert(pieces.map_values(|p: Seq<u8>| content_hash(p)).len() == pieces.len());
        assert(views(info.chunk_hashes@)[i] == info.chunk_hashes@[i]@);
        assert(pieces.map_values(|p: Seq<u8>| content_hash(p))[i] == content_hash(pieces[i]));
        assert(info.chunk_hashes@[i]@ == content_hash(pieces[i]));
        assert(cs[i].data@ == pieces[i]);
        assert(cs[i].hash@ == content_hash(pieces[i]));
    }
}

/// Each record of `files` is filed under its own hash, its chunk count is the
/// number of its chunk hashes, and each of those names a chunk of `chunks`.
pub open spec fn records_consistent(files: Map<Seq<char>, FileInfo>, chunks: Map<Seq<char>, Chunk>) -> bool {
    forall|h: Seq<char>| #[trigger] files.dom().contains(h) ==> {
        &&& files[h].hash@ == h
        &&& files[h].chunk_count == files[h].chunk_hashes@.len()
        &&& forall|j: int| 0 <= j < files[h].chunk_hashes@.len() ==> chunks.dom().contains(#[trigger] files[h].chunk_hashes@[j]@)
    }
}

/// Inserting chunks keeps what was there.
proof fn lemma_insert_chunks_keeps(m: Map<Seq<char>, Chunk>, cs: Seq<Chunk>)
    ensures
        forall|h: Seq<char>| #[trigger] m.dom().contains(h) ==> insert_chunks(m, cs).dom().contains(h),
    decreases cs.len(),
{
    if cs.len() > 0 {
        lemma_insert_chunks_keeps(m, cs.drop_last());
    }
}

/// The hashes of the pieces of a file's content, in order.
pub open spec fn piece_hashes(content: Seq<u8>) -> Seq<Seq<char>> {
    file_pieces(content).map_values(|p: Seq<u8>| content_hash(p))
}

/// The chunk hashes that the records of `files` name.
pub open spec fn listed_chunk_hashes(files: Map<Seq<char>, FileInfo>) -> Set<Seq<char>> {
    Set::new(|h: Seq<char>| exists|k: Seq<char>| files.dom().contains(k) && #[trigger] views(files[k].chunk_hashes@).contains(h))
}

/// One `add_file` of `content`, as its contract states it: the record of the
/// content goes under the content's hash, naming the hashes of its pieces, and
/// the chunks of the pieces are stored.
pub open spec fn file_step(a: FileManager, b: FileManager, content: Seq<u8>) -> bool {
    &&& exists|info: FileInfo| {
        &&& #[trigger] views(info.chunk_hashes@) == piece_hashes(content)
        &&& b.files() == a.files().insert(content_hash(content), info)
    }
    &&& exists|cs: Seq<Chunk>| {
        &&& #[trigger] chunks_of(cs, file_pieces(content))
        &&& b.chunk_store().chunks() == insert_chunks(a.chunk_store().chunks(), cs)
    }
}

/// The hashes stored after inserting chunks: those before, and the chunks' own.
proof fn lemma_insert_chunks_dom(m: Map<Seq<char>, Chunk>, cs: Seq<Chunk>)
    ensures
        forall|h: Seq<char>| #[trigger] insert_chunks(m, cs).dom().contains(h) <==> (m.dom().contains(h) || exists|i: int|
            0 <= i < cs.len() && cs[i].hash@ == h),
    decreases cs.len(),
{
    if cs.len() > 0 {
        let init = cs.drop_last();
        lemma_insert_chunks_dom(m, init);
        assert(insert_chunks(m, cs) == insert_chunks(m, init).insert(cs.last().hash@, cs.last()));
        assert forall|h: Seq<char>| #[trigger] insert_chunks(m, cs).dom().contains(h) <==> (m.dom().contains(h) || exists|i: int|
            0 <= i < cs.len() && cs[i].hash@ == h) by {
            if exists|i: int| 0 <= i < cs.len() && cs[i].hash@ == h {
                let i = choose|i: int| 0 <= i < cs.len() && cs[i].hash@ == h;
                if i < cs.len() - 1 {
                    assert(init[i].hash@ == h);
                }
            }
            if exists|i: int| 0 <= i < init.len() && init[i].hash@ == h {
                let i = choose|i: int| 0 <= i < init.len() && init[i].hash@ == h;
                assert(cs[i].hash@ == h);
            }
            if h == cs.last().hash@ {
                assert(cs[cs.len() - 1].hash@ == h);
            }
        }
    }
}

/// The chunk count law. From an empty manager, after `add_file` of each of
/// `contents` in turn, the stored chunk hashes are exactly the chunk hashes
/// that the records name (so the chunk count is the number of distinct chunk
/// hashes of the listed files), and each record is that of the last content
/// added under its hash. Left out: histories in which two different contents
/// have the same SHA-256 digest; there a record is replaced by one naming
/// other chunks, and the old chunks stay stored.
pub proof fn lemma_chunk_count_history(fms: Seq<FileManager>, contents: Seq<Seq<u8>>)
    requires
        fms.len() == contents.len() + 1,
        fms[0].files() == Map::<Seq<char>, FileInfo>::empty(),
        fms[0].chunk_store().chunks() == Map::<Seq<char>, Chunk>::empty(),
        forall|k: int| 0 <= k < contents.len() ==> #[trigger] file_step(fms[k], fms[k + 1], contents[k]),
        forall|a: int, b: int|
            0 <= a < contents.len() && 0 <= b < contents.len() && content_hash(#[trigger] contents[a]) == content_hash(
                #[trigger] contents[b],
            ) ==> contents[a] == contents[b],
    ensures
        fms.last().chunk_store().chunks().dom() == listed_chunk_hashes(fms.last().files()),
        forall|key: Seq<char>| #[trigger] fms.last().files().dom().contains(key) ==> exists|a: int|
            0 <= a < contents.len() && content_hash(contents[a]) == key && views(fms.last().files()[key].chunk_hashes@)
                == piece_hashes(#[trigger] contents[a]),
    decreases contents.len(),
{
    let n = contents.len() as int;
    if n == 0 {
        assert(listed_chunk_hashes(fms[0].files()) =~= Set::<Seq<char>>::empty());
        assert(fms[0].chunk_store().chunks().dom() =~= Set::<Seq<char>>::empty());
    } else {
        let fms0 = fms.drop_last();
        let cs0 = contents.drop_last();
        assert forall|k: int| 0 <= k < cs0.len() implies #[trigger] file_step(fms0[k], fms0[k + 1], cs0[k]) by {
            assert(file_step(fms[k], fms[k + 1], contents[k]));
        }
        assert forall|a: int, b: int|
            0 <= a < cs0.len() && 0 <= b < cs0.len() && content_hash(#[trigger] cs0[a]) == content_hash(#[trigger] cs0[b]) implies cs0[a]
                == cs0[b] by {
            assert(cs0[a] == contents[a] && cs0[b] == contents[b]);
        }
        lemma_chunk_count_history(fms0, cs0);
        let a0 = fms[n - 1];
        let b0 = fms[n];
        let c = contents[n - 1];
        assert(fms0.last() == a0);
        assert(file_step(a0, b0, c));
        let info = choose|info: FileInfo| {
            &&& #[trigger] views(info.chunk_hashes@) == piece_hashes(c)
            &&& b0.files() == a0.files().insert(content_hash(c), info)
        };
        let cs = choose|cs: Seq<Chunk>| {
            &&& #[trigger] chunks_of(cs, file_pieces(c))
            &&& b0.chunk_store().chunks() == insert_chunks(a0.chunk_store().chunks(), cs)
        };
        let hh = content_hash(c);
        let f0 = a0.files();
        let f1 = b0.files();
        let p = piece_hashes(c);
        lemma_insert_chunks_dom(a0.chunk_store().chunks(), cs);
        // The pieces' hashes are the new chunks' hashes.
        assert forall|h: Seq<char>| p.contains(h) <==> exists|i: int| 0 <= i < cs.len() && cs[i].hash@ == h by {
            if p.contains(h) {
                let i = choose|i: int| 0 <= i < p.len() && p[i] == h;
                assert(cs[i].hash@ == h);
            }
            if exists|i: int| 0 <= i < cs.len() && cs[i].hash@ == h {
                let i = choose|i: int| 0 <= i < cs.len() && cs[i].hash@ == h;
                assert(p[i] == h);
            }
        }
        // A record already under this hash names the same pieces.
        if f0.dom().contains(hh) {
            let a = choose|a: int| 0 <= a < cs0.len() && content_hash(cs0[a]) == hh && views(f0[hh].chunk_hashes@) == piece_hashes(
                #[trigger] cs0[a],
            );
            assert(cs0[a] == contents[a]);
            assert(content_hash(contents[a]) == content_hash(contents[n - 1]));
        }
        assert forall|h: Seq<char>| #[trigger] b0.chunk_store().chunks().dom().contains(h) <==> listed_chunk_hashes(f1).contains(h) by {
            if listed_chunk_hashes(f1).contains(h) {
                let k = choose|k: Seq<char>| f1.dom().contains(k) && #[trigger] views(f1[k].chunk_hashes@).contains(h);
                if k != hh {
                    assert(listed_chunk_hashes(f0).contains(h));
                }
            }
            if a0.chunk_store().chunks().dom().contains(h) {
                assert(listed_chunk_hashes(f0).contains(h));
                let k = choose|k: Seq<char>| f0.dom().contains(k) && #[trigger] views(f0[k].chunk_hashes@).contains(h);
                assert(f1.dom().contains(k));
                if k != hh {
                    assert(f1[k] == f0[k]);
                }
            }
            if p.contains(h) {
                assert(f1[hh] == info);
                assert(views(f1[hh].chunk_hashes@).contains(h));
            }
        }
        assert(b0.chunk_store().chunks().dom() =~= listed_chunk_hashes(f1));
        assert forall|key: Seq<char>| #[trigger] f1.dom().contains(key) implies exists|a: int|
            0 <= a < contents.len() && content_hash(contents[a]) == key && views(f1[key].chunk_hashes@) == piece_hashes(#[trigger] contents[a]) by {
            if key == hh {
                assert(content_hash(contents[n - 1]) == key);
            } else {
                let a = choose|a: int| 0 <= a < cs0.len() && content_hash(cs0[a]) == key && views(f0[key].chunk_hashes@) == piece_hashes(
                    #[trigger] cs0[a],
                );
                assert(cs0[a] == contents[a]);
            }
        }
    }
}

/// The shared files, by file hash, and their chunks.
pub struct FileManager {
    shared_dir: String,
    files: StrMap<FileInfo>,
    chunk_manager: ChunkManager,
}

impl FileManager {
    /// The shared files, by hash.
    pub closed spec fn files(&self) -> Map<Seq<char>, FileInfo> {
        self.files.view()
    }

    /// The chunk store.
    pub closed spec fn chunk_store(&self) -> ChunkManager {
        self.chunk_manager
    }

    /// The shared directory.
    pub closed spec fn dir(&self) -> Seq<char> {
        self.shared_dir@
    }

    pub closed spec fn wf(&self) -> bool {
        &&& self.files.wf()
        &&& self.chunk_manager.wf()
        &&& records_consistent(self.files.view(), self.chunk_manager.chunks())
    }

    /// Each record is filed under its own hash, counts its chunk hashes, and
    /// every one of them names a stored chunk, filed under that hash, whose
    /// data matches it.
    pub proof fn lemma_records(&self)
        requires
            self.wf(),
        ensures
            records_consistent(self.files(), self.chunk_store().chunks()),
            stored_under_own_hash(self.chunk_store().chunks()),
    {
        self.chunk_manager.lemma_store_valid();
    }

    /// A manager of the files of `shared_dir`, with none yet.
    pub fn new(shared_dir: String) -> (m: FileManager)
        ensures
            m.wf(),
            m.dir() == shared_dir@,
            m.files() == Map::<Seq<char>, FileInfo>::empty(),
            m.chunk_store().chunks() == Map::<Seq<char>, Chunk>::empty(),
    {
        FileManager { shared_dir, files: StrMap::new(), chunk_manager: ChunkManager::new() }
    }

    /// The shared directory.
    pub fn shared_dir(&self) -> (d: &String)
        ensures
            d@ == self.dir(),
    {
        &self.shared_dir
    }

    /// Cut content into chunks of the file's chunk size, numbered from 0.
    pub fn create_chunks(content: &[u8]) -> (r: Vec<Chunk>)
        ensures
            chunks_of(r@, file_pieces(content@)),
    {
        let len = content.len();
        let chunk_size = optimal_chunk_size(len);
        let ghost cs = chunk_size as int;
        let mut chunks: Vec<Chunk> = Vec::new();
        let mut offset: usize = 0;
        let mut chunk_index: usize = 0;
        assert(content@.skip(0) =~= content@);
        while offset < len
            invariant
                len == content@.len(),
                cs == chunk_size_for(len as int),
                cs == chunk_size,
                offset <= len,
                offset < len ==> cs > 0,
                chunk_index == chunks@.len(),
                chunk_index <= offset,
                split_pieces(content@, cs) == Seq::new(chunks@.len(), |i: int| chunks@[i].data@) + split_pieces(content@.skip(offset as int), cs),
                forall|i: int| 0 <= i < chunks@.len() ==> {
                    &&& (#[trigger] chunks@[i]).index == i
                    &&& chunks@[i].hash@ == content_hash(chunks@[i].data@)
                    &&& chunks@[i].size == chunks@[i].data@.len()
                },
            decreases len - offset,
        {
            let end = if len - offset < chunk_size { len } else { offset + chunk_size };
            let data = slice_to_vec(content, offset, end);
            let ghost rest = content@.skip(offset as int);
            let ghost before = Seq::new(chunks@.len(), |i: int| chunks@[i].data@);
            proof {
                if rest.len() <= cs {
                    assert(data@ =~= rest);
                    assert(split_pieces(rest, cs) == seq![rest]);
                    assert(content@.skip(end as int) =~= Seq::<u8>::empty());
                } else {
                    assert(data@ =~= rest.take(cs));
                    assert(rest.skip(cs) =~= content@.skip(end as int));
                }
            }
            let chunk = Chunk::new(chunk_index, data);
            chunks.push(chunk);
            proof {
                assert(Seq::new(chunks@.len(), |i: int| chunks@[i].data@) =~= before.push(chunk.data@));
                assert(split_pieces(rest, cs) =~= seq![chunk.data@] + split_pieces(content@.skip(end as int), cs));
            }
            offset = end;
            chunk_index += 1;
        }
        proof {
            assert(content@.skip(offset as int) =~= Seq::<u8>::empty());
            let pieces = split_pieces(content@, cs);
            assert(pieces =~= Seq::new(chunks@.len(), |i: int| chunks@[i].data@));
        }
        chunks
    }

    /// Take a file's content into the share: record its chunks and its
    /// information under the hash of the content, which is returned.
    pub fn add_file(&mut self, name: String, content: &[u8], size: u64, created_at: u64) -> (h: String)
        requires
            old(self).wf(),
        ensures
            final(self).wf(),
            h@ == content_hash(content@),
            final(self).dir() == old(self).dir(),
            exists|info: FileInfo| {
                &&& #[trigger] describes(info, name@, content@, size, created_at)
                &&& final(self).files() == old(self).files().insert(h@, info)
            },
            exists|cs: Seq<Chunk>| {
                &&& #[trigger] chunks_of(cs, file_pieces(content@))
                &&& final(self).chunk_store().chunks() == insert_chunks(old(self).chunk_store().chunks(), cs)
                &&& final(self).chunk_store().by_index() == index_chunks(old(self).chunk_store().by_index(), cs)
            },
            file_step(*old(self), *final(self), content@),
    {
        let file_hash = HashUtils::hash_data(content);
        let chunks = Self::create_chunks(content);
        let ghost cs = chunks@;
        let ghost pieces = file_pieces(content@);
        let mut chunk_hashes: Vec<String> = Vec::new();
        let n = chunks.len();
        let mut i: usize = 0;
        let ghost start_chunks = self.chunk_manager.chunks();
        let ghost start_index = self.chunk_manager.by_index();
        // Reverse the chunks, so that popping takes them from the front.
        let mut chunks = chunks;
        let mut rest: Vec<Chunk> = Vec::new();
        while chunks.len() > 0
            invariant
                n == cs.len(),
                chunks@.len() <= n,
                chunks@ == cs.take(chunks@.len() as int),
                rest@ == cs.subrange(chunks@.len() as int, n as int).reverse(),
            decreases chunks@.len(),
        {
            let ghost k = chunks@.len();
            let c = chunks.pop().unwrap();
            rest.push(c);
            proof {
                assert(chunks@ =~= cs.take(k - 1));
                assert(rest@ =~= cs.subrange(k - 1, n as int).reverse());
            }
        }
        while i < n
            invariant
                n == cs.len(),
                chunks_of(cs, pieces),
                0 <= i <= n,
                rest@ == cs.subrange(i as int, n as int).reverse(),
                self.files.wf(),
                self.chunk_manager.wf(),
                self.files.view() == old(self).files.view(),
                self.shared_dir == old(self).shared_dir,
                chunk_hashes@.len() == i,
                forall|j: int| 0 <= j < i ==> (#[trigger] chunk_hashes@[j])@ == content_hash(pieces[j]),
                self.chunk_manager.chunks() == insert_chunks(start_chunks, cs.take(i as int)),
                self.chunk_manager.by_index() == index_chunks(start_index, cs.take(i as int)),
            decreases n - i,
        {
            let chunk = rest.pop().unwrap();
            proof {
                assert(chunk == cs[i as int]);
                assert(cs.take(i + 1).drop_last() =~= cs.take(i as int));
                assert(rest@ =~= cs.subrange(i + 1, n as int).reverse());
            }
            chunk_hashes.push(chunk.hash.clone());
            let _ = self.chunk_manager.add_chunk(chunk);
            i += 1;
        }
        let info = FileInfo {
            hash: file_hash.clone(),
            name,
            size,
            chunk_count: n,
            chunk_hashes,
            created_at,
        };
        proof {
            assert(cs.take(n as int) =~= cs);
            assert(views(info.chunk_hashes@) =~= pieces.map_values(|p: Seq<u8>| content_hash(p)));
        }
        let ghost gi = info;
        assert(describes(gi, name@, content@, size, created_at));
        let key = file_hash.clone();
        self.files.insert(key, info);
        proof {
            assert(views(gi.chunk_hashes@) == piece_hashes(content@));
            assert(self.files() == old(self).files().insert(content_hash(content@), gi));
            assert(chunks_of(cs, file_pieces(content@)));
            let nc = self.chunk_manager.chunks();
            let of = old(self).files.view();
            lemma_insert_chunks_keeps(start_chunks, cs);
            lemma_added_chunks_available(gi, name@, content@, size, created_at, start_chunks, cs);
            assert forall|h: Seq<char>| #[trigger] self.files.view().dom().contains(h) implies {
                &&& self.files.view()[h].hash@ == h
                &&& self.files.view()[h].chunk_count == self.files.view()[h].chunk_hashes@.len()
                &&& forall|j: int| 0 <= j < self.files.view()[h].chunk_hashes@.len() ==> nc.dom().contains(
                    #[trigger] self.files.view()[h].chunk_hashes@[j]@,
                )
            } by {
                if h == gi.hash@ {
                    assert(self.files.view()[h] == gi);
                    assert(views(gi.chunk_hashes@).len() == gi.chunk_hashes@.len());
                } else {
                    assert(of.dom().contains(h));
                    assert(self.files.view()[h] == of[h]);
                    assert forall|j: int| 0 <= j < of[h].chunk_hashes@.len() implies nc.dom().contains(#[trigger] of[h].chunk_hashes@[j]@) by {
                        assert(start_chunks.dom().contains(of[h].chunk_hashes@[j]@));
                    }
                }
            }
        }
        file_hash
    }

    /// The information of the file with hash `hash`.
    pub fn get_file_info(&self, hash: &str) -> (r: Option<&FileInfo>)
        requires
            self.wf(),
        ensures
            r matches Some(f) ==> self.files().dom().contains(hash@) && *f == self.files()[hash@],
            r matches Some(f) ==> f.hash@ == hash@ && f.chunk_count == f.chunk_hashes@.len(),
            r matches Some(f) ==> forall|j: int| 0 <= j < f.chunk_hashes@.len() ==> {
                &&& self.chunk_store().chunks().dom().contains(#[trigger] f.chunk_hashes@[j]@)
                &&& self.chunk_store().chunks()[f.chunk_hashes@[j]@].hash@ == f.chunk_hashes@[j]@
                &&& chunk_valid(self.chunk_store().chunks()[f.chunk_hashes@[j]@])
            },
            r is None ==> !self.files().dom().contains(hash@),
    {
        proof {
            self.lemma_records();
        }
        self.files.get(hash)
    }

    /// The chunk with hash `hash`.
    pub fn get_chunk(&self, hash: &str) -> (r: Option<&Chunk>)
        requires
            self.wf(),
        ensures
            r matches Some(c) ==> self.chunk_store().chunks().dom().contains(hash@) && *c
                == self.chunk_store().chunks()[hash@] && c.hash@ == hash@ && chunk_valid(*c),
            r is None ==> !self.chunk_store().chunks().dom().contains(hash@),
    {
        self.chunk_manager.get_chunk(hash)
    }

    /// The information of every shared file, each once.
    pub fn list_files(&self) -> (r: Vec<&FileInfo>)
        requires
            self.wf(),
        ensures
            r@.len() == self.files().len(),
            exists|ks: Seq<Seq<char>>| {
                &&& #[trigger] ks.len() == r@.len()
                &&& distinct(ks)
                &&& forall|i: int| 0 <= i < r@.len() ==> self.files().dom().contains(#[trigger] ks[i]) && *r@[i] == self.files()[ks[i]]
            },
            forall|i: int| 0 <= i < r@.len() ==> self.files().dom().contains((#[trigger] r@[i]).hash@) && *r@[i] == self.files()[r@[i].hash@],
            forall|i: int, j: int| 0 <= i < j < r@.len() ==> (#[trigger] r@[i]).hash@ != (#[trigger] r@[j]).hash@,
            forall|h: Seq<char>| #[trigger] self.files().dom().contains(h) ==> exists|i: int| 0 <= i < r@.len() && (#[trigger] r@[i]).hash@ == h,
    {
        let r = self.files.values();
        proof {
            self.files.lemma_view();
            let ks = self.files.key_seq();
            assert(ks.len() == r@.len());
            assert forall|i: int| 0 <= i < r@.len() implies (#[trigger] r@[i]).hash@ == ks[i] by {
                assert(self.files.view().dom().contains(ks[i]));
            }
            assert forall|h: Seq<char>| #[trigger] self.files().dom().contains(h) implies exists|i: int| 0 <= i < r@.len() && (#[trigger] r@[i]).hash@ == h by {
                assert(ks.contains(h));
                let i = choose|i: int| 0 <= i < ks.len() && ks[i] == h;
                assert(r@[i].hash@ == h);
            }
        }
        r
    }

    /// The number of chunks stored.
    pub fn get_chunk_count(&self) -> (n: usize)
        requires
            self.wf(),
        ensures
            n == self.chunk_store().chunks().len(),
    {
        self.chunk_manager.chunk_count()
    }

    /// The number of shared files.
    pub fn get_file_count(&self) -> (n: usize)
        requires
            self.wf(),
        ensures
            n == self.files().len(),
    {
        self.files.len()
    }
}

/// The bytes `content[start..end]`.
pub fn slice_to_vec(content: &[u8], start: usize, end: usize) -> (r: Vec<u8>)
    requires
        start <= end <= content@.len(),
    ensures
        r@ == content@.subrange(start as int, end as int),
{
    let mut r: Vec<u8> = Vec::with_capacity(end - start);
    let mut i = start;
    while i < end
        invariant
            start <= i <= end,
            end <= content@.len(),
            r@ == content@.subrange(start as int, i as int),
        decreases end - i,
    {
        r.push(content[i]);
        assert(r@ =~= content@.subrange(start as int, i + 1));
        i += 1;
    }
    r
}

} // verus!
