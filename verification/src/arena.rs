use vstd::prelude::*;
use vstd::string::StringSliceAdditionalSpecFns;

verus! {

/// The least size of a chunk.
pub const CHUNK_SIZE: usize = 1024;

/// The place of a name in an arena.
#[derive(Clone, Copy, PartialEq, Eq, Debug, Structural)]
pub struct ArenaName {
    chunk: usize,
    start: usize,
    len: usize,
}

/// A run of bytes of which the first are used.
#[derive(Debug)]
struct SymbolsChunk {
    data: Vec<u8>,
    used: usize,
}

/// Holds the bytes of names. A name that is held stays where it is and as it is.
#[derive(Debug)]
pub struct SymbolArena {
    chunks: Vec<SymbolsChunk>,
}

impl SymbolsChunk {
    /// A chunk of `size` bytes, none of them used.
    fn new(size: usize) -> (r: SymbolsChunk)
        ensures
            r.data@.len() == size,
            r.used == 0,
    {
        let mut chunk: Vec<u8> = Vec::new();
        while chunk.len() < size
            invariant
                chunk@.len() <= size,
            decreases size - chunk@.len(),
        {
            chunk.push(0xCE);
        }
        SymbolsChunk { data: chunk, used: 0 }
    }

    /// Puts the bytes of `s` behind those that are used.
    fn push(&mut self, s: &[u8]) -> (start: usize)
        requires
            old(self).used <= old(self).data@.len(),
            s@.len() <= old(self).data@.len() - old(self).used,
        ensures
            start == old(self).used,
            final(self).used == old(self).used + s@.len(),
            final(self).data@.len() == old(self).data@.len(),
            final(self).data@.subrange(start as int, final(self).used as int) == s@,
            forall|k: int| 0 <= k < start ==> final(self).data@[k] == old(self).data@[k],
    {
        let start = self.used;
        let size = self.data.len();
        let mut i: usize = 0;
        while i < s.len()
            invariant
                i <= s@.len(),
                size == self.data@.len(),
                start + s@.len() <= size,
                self.data@.len() == old(self).data@.len(),
                self.used == start,
                forall|k: int| 0 <= k < i ==> self.data@[start + k] == s@[k],
                forall|k: int| 0 <= k < start ==> self.data@[k] == old(self).data@[k],
            decreases s@.len() - i,
        {
            self.data.set(start + i, s[i]);
            i += 1;
        }
        self.used = start + s.len();
        proof {
            assert(self.data@.subrange(start as int, self.used as int) =~= s@);
        }
        start
    }
}

impl SymbolArena {
    /// Each chunk uses no more bytes than it has.
    pub closed spec fn well_formed(&self) -> bool {
        forall|i: int|
            0 <= i < self.chunks@.len() ==> (#[trigger] self.chunks@[i]).used
                <= self.chunks@[i].data@.len()
    }

    /// `name` is the place of a name that the arena holds.
    pub closed spec fn holds(&self, name: ArenaName) -> bool {
        &&& name.chunk < self.chunks@.len()
        &&& name.start + name.len <= self.chunks@[name.chunk as int].used
    }

    /// The bytes of the name at `name`.
    pub closed spec fn bytes_of(&self, name: ArenaName) -> Seq<u8> {
        self.chunks@[name.chunk as int].data@.subrange(
            name.start as int,
            name.start + name.len,
        )
    }

    pub fn new() -> (r: SymbolArena)
        ensures
            r.well_formed(),
            forall|name: ArenaName| !r.holds(name),
    {
        SymbolArena { chunks: Vec::new() }
    }

    /// Holds the bytes of `data` from now on, in the last chunk where they fit, else in a new
    /// one. The names that are held already stay as they are.
    pub fn store(&mut self, data: &str) -> (name: ArenaName)
        requires
            old(self).well_formed(),
        ensures
            final(self).well_formed(),
            final(self).holds(name),
            final(self).bytes_of(name) == data.spec_bytes(),
            forall|other: ArenaName|
                old(self).holds(other) ==> final(self).holds(other) && final(self).bytes_of(other)
                    == old(self).bytes_of(other),
    {
        let bytes = data.as_bytes();
        let count = self.chunks.len();
        let ghost before = *self;
        if count > 0 {
            let last = count - 1;
            if self.chunks[last].data.len() - self.chunks[last].used >= bytes.len() {
                let mut chunk = SymbolsChunk { data: Vec::new(), used: 0 };
                std::mem::swap(&mut chunk, &mut self.chunks[last]);
                let start = chunk.push(bytes);
                let ghost filled = chunk;
                std::mem::swap(&mut chunk, &mut self.chunks[last]);
                let name = ArenaName { chunk: last, start, len: bytes.len() };
                proof {
                    assert forall|other: ArenaName| before.holds(other) implies self.holds(other)
                        && self.bytes_of(other) == before.bytes_of(other) by {
                        if other.chunk == last {
                            assert(self.bytes_of(other) =~= before.bytes_of(other));
                        }
                    }
                }
                return name;
            }
        }
        let size = if bytes.len() > CHUNK_SIZE {
            bytes.len()
        } else {
            CHUNK_SIZE
        };
        let mut chunk = SymbolsChunk::new(size);
        let start = chunk.push(bytes);
        self.chunks.push(chunk);
        let name = ArenaName { chunk: count, start, len: bytes.len() };
        proof {
            assert forall|other: ArenaName| before.holds(other) implies self.holds(other)
                && self.bytes_of(other) == before.bytes_of(other) by {
                assert(self.chunks@[other.chunk as int] == before.chunks@[other.chunk as int]);
            }
        }
        name
    }

    /// The bytes of the name at `name`.
    pub fn get(&self, name: ArenaName) -> (r: Vec<u8>)
        requires
            self.well_formed(),
            self.holds(name),
        ensures
            r@ == self.bytes_of(name),
    {
        let chunk = &self.chunks[name.chunk];
        let mut out: Vec<u8> = Vec::new();
        let mut i: usize = 0;
        while i < name.len
            invariant
                i <= name.len,
                name.start + name.len <= chunk.used <= chunk.data@.len(),
                out@ == chunk.data@.subrange(name.start as int, name.start + i),
            decreases name.len - i,
        {
            out.push(chunk.data[name.start + i]);
            i += 1;
            proof {
                assert(out@ =~= chunk.data@.subrange(name.start as int, name.start + i));
            }
        }
        out
    }
}

} // verus!
