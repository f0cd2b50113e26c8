use vstd::prelude::*;

verus! {

/// Number of bytes a [`Buffer`] can hold.
pub const BUFFER_CAPACITY: usize = 7000;

/// A fixed-capacity byte buffer whose meaningful contents are its first
/// `current_size` bytes.
pub struct Buffer {
    pub buffer: [u8; 7000],
    pub current_size: usize,
}

/// Mutable access to the first `n` bytes of a buffer's storage, through std's
/// `IndexMut<Range<usize>>` for arrays (`&mut storage[0..n]`). Claimed, as std
/// documents it: the slice is the first `n` bytes, it keeps its length, what is
/// written through it lands in those bytes and the rest of the storage stays as
/// it was; the call does not panic when `n` is within the array.
#[verifier::external_body]
fn storage_prefix_mut(storage: &mut [u8; 7000], n: usize) -> (prefix: &mut [u8])
    requires
        n <= 7000,
    ensures
        prefix@ == old(storage)@.take(n as int),
        final(prefix)@.len() == n,
        final(storage)@ == final(prefix)@ + old(storage)@.skip(n as int),
{
    &mut storage[0..n]
}

impl View for Buffer {
    type V = Seq<u8>;

    open spec fn view(&self) -> Seq<u8> {
        self.contents()
    }
}

impl Buffer {
    /// The buffer is well formed when its size does not exceed its capacity.
    pub open spec fn wf(&self) -> bool {
        self.current_size <= BUFFER_CAPACITY
    }

    /// The bytes the buffer currently holds.
    pub open spec fn contents(&self) -> Seq<u8> {
        self.buffer@.take(self.current_size as int)
    }

    /// An empty buffer whose storage is all zeros.
    pub fn new() -> (b: Buffer)
        ensures
            b.wf(),
            b.current_size == 0,
            b.contents() == Seq::<u8>::empty(),
            b.buffer@ == Seq::new(BUFFER_CAPACITY as nat, |i: int| 0u8),
    {
        let b = Buffer { buffer: [0u8; 7000], current_size: 0 };
        assert(b.buffer@ =~= Seq::new(BUFFER_CAPACITY as nat, |i: int| 0u8));
        b
    }

    /// A buffer holding a copy of `byte_array`; the storage past it is zero.
    pub fn new_from(byte_array: &[u8]) -> (b: Buffer)
        requires
            byte_array@.len() <= BUFFER_CAPACITY,
        ensures
            b.wf(),
            b.current_size == byte_array@.len(),
            b.contents() == byte_array@,
            b.buffer@ == byte_array@ + Seq::new(
                (BUFFER_CAPACITY - byte_array@.len()) as nat,
                |i: int| 0u8,
            ),
    {
        let mut buffer = Buffer { buffer: [0u8; 7000], current_size: 0 };
        assert(buffer.buffer@ =~= Seq::new(BUFFER_CAPACITY as nat, |i: int| 0u8));
        buffer.put(byte_array);
        assert(buffer.buffer@ =~= byte_array@ + Seq::new(
            (BUFFER_CAPACITY - byte_array@.len()) as nat,
            |i: int| 0u8,
        ));
        buffer
    }

    /// Replaces the contents with `byte_array`; the storage past it is left as it was.
    pub fn put(&mut self, byte_array: &[u8])
        requires
            byte_array@.len() <= BUFFER_CAPACITY,
        ensures
            final(self).wf(),
            final(self).current_size == byte_array@.len(),
            final(self).contents() == byte_array@,
            final(self).buffer@ == byte_array@ + old(self).buffer@.skip(byte_array@.len() as int),
    {
        self.write_at(0, byte_array);
        self.current_size = byte_array.len();
    }

    /// Adds `byte_array` after the current contents.
    pub fn append(&mut self, byte_array: &[u8])
        requires
            old(self).wf(),
            old(self).current_size + byte_array@.len() <= BUFFER_CAPACITY,
        ensures
            final(self).wf(),
            final(self).current_size == old(self).current_size + byte_array@.len(),
            final(self).contents() == old(self).contents() + byte_array@,
            final(self).buffer@ == old(self).contents() + byte_array@ + old(self).buffer@.skip(
                old(self).current_size + byte_array@.len(),
            ),
    {
        self.write_at(self.current_size, byte_array);
        self.current_size = self.current_size + byte_array.len();
    }

    /// Copies `bytes` into the storage starting at `start`.
    fn write_at(&mut self, start: usize, bytes: &[u8])
        requires
            start + bytes@.len() <= BUFFER_CAPACITY,
        ensures
            final(self).current_size == old(self).current_size,
            final(self).buffer@ == old(self).buffer@.take(start as int) + bytes@ + old(
                self,
            ).buffer@.skip(start + bytes@.len()),
    {
        let n = bytes.len();
        let mut i: usize = 0;
        while i < n
            invariant
                n == bytes@.len(),
                i <= n,
                start + n <= BUFFER_CAPACITY,
                self.current_size == old(self).current_size,
                self.buffer@.len() == BUFFER_CAPACITY,
                forall|j: int| 0 <= j < start ==> self.buffer@[j] == old(self).buffer@[j],
                forall|j: int| 0 <= j < i ==> self.buffer@[start + j] == bytes@[j],
                forall|j: int|
                    start + i <= j < BUFFER_CAPACITY ==> self.buffer@[j] == old(self).buffer@[j],
            decreases n - i,
        {
            self.buffer[start + i] = bytes[i];
            i = i + 1;
        }
        assert(self.buffer@ =~= old(self).buffer@.take(start as int) + bytes@ + old(
            self,
        ).buffer@.skip(start + bytes@.len()));
    }

    pub fn get(&mut self) -> (bytes: &mut [u8])
        requires
            old(self).wf(),
        ensures
            bytes@ == old(self).contents(),
            final(self).current_size == old(self).current_size,
            final(self).buffer@ == final(bytes)@ + old(self).buffer@.skip(old(self).current_size as int),
            final(self).contents() == final(bytes)@,
    {
        storage_prefix_mut(&mut self.buffer, self.current_size)
    }
}


} // verus!
