use vstd::prelude::*;

verus! {

/// Tag carried by the shared-memory service proxy, so that its events reach
/// the advertised format list.
pub struct UserData;

/// Largest size the protocol's signed 32-bit size field can carry.
pub const MAX_POOL_SIZE: u32 = 0x7fff_ffff;

/// Pixel layouts the library can fill: four bytes per pixel, blue first.
#[derive(Debug, Clone, Copy, PartialEq, Eq, Structural)]
pub enum PixelFormat {
    /// Blue, green, red, alpha.
    Argb8888,
    /// Blue, green, red, and a byte that is not read.
    Xrgb8888,
}

impl PixelFormat {
    /// The value the protocol uses for the format.
    pub open spec fn spec_code(self) -> u32 {
        match self {
            PixelFormat::Argb8888 => 0,
            PixelFormat::Xrgb8888 => 1,
        }
    }

    pub fn code(&self) -> (r: u32)
        ensures
            r == self.spec_code(),
    {
        match self {
            PixelFormat::Argb8888 => 0,
            PixelFormat::Xrgb8888 => 1,
        }
    }

    /// The format a protocol value stands for, if it is one the library fills.
    pub fn from_code(code: u32) -> (r: Option<PixelFormat>)
        ensures
            match r {
                Some(f) => f.spec_code() == code,
                None => code > 1,
            },
    {
        if code == 0 {
            Some(PixelFormat::Argb8888)
        } else if code == 1 {
            Some(PixelFormat::Xrgb8888)
        } else {
            None
        }
    }

    /// Bytes per pixel: four for every format the library fills.
    pub open spec fn spec_bytes_per_pixel(self) -> int {
        4
    }

    pub fn bytes_per_pixel(&self) -> (r: u32)
        ensures
            r == self.spec_bytes_per_pixel(),
    {
        4
    }
}

/// The formats the shared-memory service advertised, as protocol values, in
/// the order in which they came.
pub struct Shm {
    pub formats: Vec<u32>,
}

impl Shm {
    pub fn new() -> (r: Shm)
        ensures
            r.formats@ == Seq::<u32>::empty(),
    {
        Shm { formats: Vec::new() }
    }

    /// Records one advertised format.
    pub fn on_format(&mut self, code: u32)
        ensures
            final(self).formats@ == old(self).formats@.push(code),
    {
        self.formats.push(code);
    }

    /// Whether the service advertised the format.
    pub fn supports(&self, format: PixelFormat) -> (r: bool)
        ensures
            r == self.formats@.contains(format.spec_code()),
    {
        let code = format.code();
        let mut i: usize = 0;
        while i < self.formats.len()
            invariant
                code == format.spec_code(),
                i <= self.formats@.len(),
                forall|k: int| 0 <= k < i ==> self.formats@[k] != code,
            decreases self.formats@.len() - i,
        {
            if self.formats[i] == code {
                assert(self.formats@[i as int] == code);
                return true;
            }
            i = i + 1;
        }
        false
    }
}

/// The layout of one pixel buffer.
#[derive(Debug, Clone, Copy, PartialEq, Eq, Structural)]
pub struct BufferDescriptor {
    pub width: u32,
    pub height: u32,
    pub stride: u32,
    pub format: PixelFormat,
}

impl BufferDescriptor {
    /// Bytes the buffer covers: one stride per row.
    pub open spec fn spec_size(self) -> int {
        self.height as int * self.stride as int
    }

    pub fn size(&self) -> (r: usize)
        requires
            self.spec_size() <= usize::MAX,
        ensures
            r == self.spec_size(),
    {
        self.height as usize * self.stride as usize
    }
}

/// A caller's configuration error, refused before any request is sent.
#[derive(Debug, Clone, Copy, PartialEq, Eq, Structural)]
pub enum ShmError {
    /// The pool size does not fit the protocol's signed 32-bit field.
    SizeOverflow,
    /// The buffer reaches past the end of the pool.
    OutOfBounds,
    /// The service did not advertise the format.
    UnsupportedFormat,
    /// A row of the buffer is wider than its stride.
    InvalidStride,
    /// The buffer's bytes overlap those of a buffer already carved.
    Overlap,
}

/// A buffer carved from a pool: its layout and where its bytes start.
#[derive(Debug, Clone, Copy, PartialEq, Eq, Structural)]
pub struct Buffer {
    pub offset: u32,
    pub desc: BufferDescriptor,
}

/// Two byte ranges share a byte.
pub open spec fn overlaps(a: (u64, u64), b: (u64, u64)) -> bool {
    a.0 < b.1 && b.0 < a.1
}

/// The error `carve_buffer` gives, if any, checked in this order.
pub open spec fn carve_error(
    size: int,
    ranges: Seq<(u64, u64)>,
    offset: u32,
    desc: BufferDescriptor,
    formats: Seq<u32>,
) -> Option<ShmError> {
    if (desc.stride as int) < desc.width as int * desc.format.spec_bytes_per_pixel() {
        Some(ShmError::InvalidStride)
    } else if offset as int + desc.spec_size() > size {
        Some(ShmError::OutOfBounds)
    } else if !formats.contains(desc.format.spec_code()) {
        Some(ShmError::UnsupportedFormat)
    } else if exists|k: int|
        0 <= k < ranges.len() && overlaps(
            #[trigger] ranges[k],
            (offset as u64, (offset as int + desc.spec_size()) as u64),
        ) {
        Some(ShmError::Overlap)
    } else {
        None
    }
}

/// The size a pool request carries, refused where the protocol cannot hold it.
pub fn checked_pool_size(size: usize) -> (r: Result<i32, ShmError>)
    ensures
        match r {
            Ok(v) => size <= MAX_POOL_SIZE && v == size,
            Err(e) => size > MAX_POOL_SIZE && e == ShmError::SizeOverflow,
        },
{
    if size > MAX_POOL_SIZE as usize {
        Err(ShmError::SizeOverflow)
    } else {
        Ok(size as i32)
    }
}

/// The layout of a shared-memory pool: its size and the byte ranges of the
/// buffers carved from it, which never overlap.
pub struct Pool {
    size: u32,
    ranges: Vec<(u64, u64)>,
}

impl Pool {
    pub closed spec fn spec_size(&self) -> int {
        self.size as int
    }

    /// The byte ranges of the carved buffers, from start to end.
    pub closed spec fn spec_ranges(&self) -> Seq<(u64, u64)> {
        self.ranges@
    }

    pub closed spec fn wf(&self) -> bool {
        &&& self.size <= MAX_POOL_SIZE
        &&& forall|k: int|
            0 <= k < self.ranges@.len() ==> #[trigger] self.ranges@[k].0 <= self.ranges@[k].1
                <= self.size
        &&& forall|a: int, b: int|
            0 <= a < b < self.ranges@.len() ==> !overlaps(self.ranges@[a], self.ranges@[b])
    }

    /// A pool of `total_size` bytes with no buffer carved yet.
    pub fn new(total_size: usize) -> (r: Result<Pool, ShmError>)
        ensures
            match r {
                Ok(p) => {
                    &&& p.wf()
                    &&& total_size <= MAX_POOL_SIZE
                    &&& p.spec_size() == total_size
                    &&& p.spec_ranges() == Seq::<(u64, u64)>::empty()
                },
                Err(e) => total_size > MAX_POOL_SIZE && e == ShmError::SizeOverflow,
            },
    {
        match checked_pool_size(total_size) {
            Ok(v) => Ok(Pool { size: v as u32, ranges: Vec::new() }),
            Err(e) => Err(e),
        }
    }

    pub fn size(&self) -> (r: u32)
        ensures
            r == self.spec_size(),
    {
        self.size
    }

    /// Carves a buffer of layout `desc` at `offset`, checking the stride, the
    /// bounds, the advertised formats and the buffers already carved.
    pub fn carve_buffer(&mut self, offset: u32, desc: BufferDescriptor, shm: &Shm) -> (r: Result<
        Buffer,
        ShmError,
    >)
        requires
            old(self).wf(),
        ensures
            final(self).wf(),
            final(self).spec_size() == old(self).spec_size(),
            match r {
                Ok(b) => {
                    &&& carve_error(
                        old(self).spec_size(),
                        old(self).spec_ranges(),
                        offset,
                        desc,
                        shm.formats@,
                    ) is None
                    &&& b == Buffer { offset, desc }
                    &&& final(self).spec_ranges() == old(self).spec_ranges().push(
                        (offset as u64, (offset as int + desc.spec_size()) as u64),
                    )
                },
                Err(e) => {
                    &&& carve_error(
                        old(self).spec_size(),
                        old(self).spec_ranges(),
                        offset,
                        desc,
                        shm.formats@,
                    ) == Some(e)
                    &&& final(self).spec_ranges() == old(self).spec_ranges()
                },
            },
    {
        let row: u64 = desc.width as u64 * desc.format.bytes_per_pixel() as u64;
        if (desc.stride as u64) < row {
            return Err(ShmError::InvalidStride);
        }
        let h: u64 = desc.height as u64;
        let st: u64 = desc.stride as u64;
        assert(h * st <= 0xffff_fffe_0000_0001u64) by (nonlinear_arith)
            requires
                h <= 0xffff_ffffu64,
                st <= 0xffff_ffffu64,
        ;
        let len: u64 = h * st;
        assert(len == desc.spec_size());
        let end: u64 = offset as u64 + len;
        if end > self.size as u64 {
            return Err(ShmError::OutOfBounds);
        }
        if !shm.supports(desc.format) {
            return Err(ShmError::UnsupportedFormat);
        }
        let range = (offset as u64, end);
        let mut k: usize = 0;
        while k < self.ranges.len()
            invariant
                self.wf(),
                self.ranges@ == old(self).ranges@,
                self.size == old(self).size,
                range == (offset as u64, (offset as int + desc.spec_size()) as u64),
                end == range.1,
                end == offset as int + desc.spec_size(),
                end <= self.size,
                shm.formats@.contains(desc.format.spec_code()),
                desc.stride as int >= desc.width as int * desc.format.spec_bytes_per_pixel(),
                k <= self.ranges@.len(),
                forall|j: int| 0 <= j < k ==> !overlaps(#[trigger] self.ranges@[j], range),
            decreases self.ranges@.len() - k,
        {
            let other = self.ranges[k];
            if other.0 < range.1 && range.0 < other.1 {
                assert(overlaps(self.ranges@[k as int], range));
                return Err(ShmError::Overlap);
            }
            k = k + 1;
        }
        self.ranges.push(range);
        proof {
            let last = self.ranges@.len() - 1;
            assert forall|a: int, b: int|
                0 <= a < b < self.ranges@.len() implies !overlaps(
                self.ranges@[a],
                self.ranges@[b],
            ) by {
                if b == last {
                    assert(self.ranges@[a] == old(self).ranges@[a]);
                } else {
                    assert(self.ranges@[a] == old(self).ranges@[a]);
                    assert(self.ranges@[b] == old(self).ranges@[b]);
                }
            }
            assert forall|j: int| 0 <= j < self.ranges@.len() implies #[trigger] self.ranges@[j].0
                <= self.ranges@[j].1 <= self.size by {
                if j < last {
                    assert(self.ranges@[j] == old(self).ranges@[j]);
                }
            }
        }
        Ok(Buffer { offset, desc })
    }
}

/// A buffer that exactly fills what is left of a fresh pool after its offset
/// is accepted; one byte more is refused as out of bounds.
pub proof fn lemma_exact_fit(
    size: int,
    offset: u32,
    desc: BufferDescriptor,
    formats: Seq<u32>,
)
    requires
        0 <= size <= MAX_POOL_SIZE,
        desc.stride as int >= desc.width as int * desc.format.spec_bytes_per_pixel(),
        formats.contains(desc.format.spec_code()),
    ensures
        offset as int + desc.spec_size() == size ==> carve_error(
            size,
            Seq::empty(),
            offset,
            desc,
            formats,
        ) is None,
        offset as int + desc.spec_size() == size + 1 ==> carve_error(
            size,
            Seq::empty(),
            offset,
            desc,
            formats,
        ) == Some(ShmError::OutOfBounds),
{
}

} // verus!
