//! The 56-byte footer appended to every packed executable, and the layout of
//! the sections that precede it.
use vstd::bytes::*;
use vstd::slice::slice_subrange;
use vstd::prelude::*;

verus! {

/// Magic number stored in the last eight bytes of every packed executable.
pub const FOOTER_MAGIC: u64 = 0xB04B_B04B_B04B_0002;

/// Size of the footer in bytes: seven little-endian `u64` words.
pub const FOOTER_SIZE: usize = 56;

/// Locations and sizes of the sections of a packed executable.
///
/// The sections follow each other in this order: runner, payload (the
/// SquashFS image), bwrap, unsquashfs, config JSON; the footer comes last.
#[derive(Clone, Copy, Debug, PartialEq, Eq, Structural)]
pub struct Footer {
    pub payload_offset: u64,
    pub payload_size: u64,
    pub config_size: u64,
    pub bwrap_size: u64,
    pub unsquashfs_size: u64,
}

impl Footer {
    pub open spec fn spec_bwrap_offset(self) -> int {
        self.payload_offset + self.payload_size
    }

    pub open spec fn spec_unsquashfs_offset(self) -> int {
        self.spec_bwrap_offset() + self.bwrap_size
    }

    pub open spec fn spec_config_offset(self) -> int {
        self.spec_unsquashfs_offset() + self.unsquashfs_size
    }

    /// The footer's bytes: the five fields, a reserved zero word, the magic.
    pub open spec fn encode(self) -> Seq<u8> {
        spec_u64_to_le_bytes(self.payload_offset) + spec_u64_to_le_bytes(self.payload_size)
            + spec_u64_to_le_bytes(self.config_size) + spec_u64_to_le_bytes(self.bwrap_size)
            + spec_u64_to_le_bytes(self.unsquashfs_size) + spec_u64_to_le_bytes(0)
            + spec_u64_to_le_bytes(FOOTER_MAGIC)
    }

    /// Returns `true` if both `bwrap_size` and `unsquashfs_size` are nonzero.
    pub fn has_embedded_tools(&self) -> (r: bool)
        ensures
            r == (self.bwrap_size > 0 && self.unsquashfs_size > 0),
    {
        self.bwrap_size > 0 && self.unsquashfs_size > 0
    }

    /// Offset of the embedded bwrap binary: right after the payload.
    pub fn bwrap_offset(&self) -> (r: u64)
        requires
            self.spec_bwrap_offset() <= u64::MAX,
        ensures
            r == self.spec_bwrap_offset(),
    {
        self.payload_offset + self.payload_size
    }

    /// Offset of the embedded unsquashfs binary: right after bwrap.
    pub fn unsquashfs_offset(&self) -> (r: u64)
        requires
            self.spec_unsquashfs_offset() <= u64::MAX,
        ensures
            r == self.spec_unsquashfs_offset(),
    {
        self.bwrap_offset() + self.bwrap_size
    }

    /// Offset of the config JSON: right after unsquashfs.
    pub fn config_offset(&self) -> (r: u64)
        requires
            self.spec_config_offset() <= u64::MAX,
        ensures
            r == self.spec_config_offset(),
    {
        self.unsquashfs_offset() + self.unsquashfs_size
    }

    /// Serializes the footer into a [`FOOTER_SIZE`]-byte little-endian buffer.
    pub fn to_bytes(&self) -> (r: Vec<u8>)
        ensures
            r@ == self.encode(),
            r@.len() == FOOTER_SIZE,
    {
        let mut buf = u64_to_le_bytes(self.payload_offset);
        let mut w = u64_to_le_bytes(self.payload_size);
        buf.append(&mut w);
        let mut w = u64_to_le_bytes(self.config_size);
        buf.append(&mut w);
        let mut w = u64_to_le_bytes(self.bwrap_size);
        buf.append(&mut w);
        let mut w = u64_to_le_bytes(self.unsquashfs_size);
        buf.append(&mut w);
        // reserved for future use
        let mut w = u64_to_le_bytes(0);
        buf.append(&mut w);
        let mut w = u64_to_le_bytes(FOOTER_MAGIC);
        buf.append(&mut w);
        buf
    }

    /// Parses a `Footer` from the tail of a byte slice.
    ///
    /// Returns `None` if the slice is too short or the magic number doesn't match.
    pub fn from_bytes(data: &[u8]) -> (r: Option<Footer>)
        ensures
            r == parse_footer(data@),
    {
        if data.len() < FOOTER_SIZE {
            return None;
        }
        let base = data.len() - FOOTER_SIZE;
        let magic = u64_from_le_bytes(slice_subrange(data, base + 48, base + 56));
        if magic != FOOTER_MAGIC {
            return None;
        }
        Some(
            Footer {
                payload_offset: u64_from_le_bytes(slice_subrange(data, base, base + 8)),
                payload_size: u64_from_le_bytes(slice_subrange(data, base + 8, base + 16)),
                config_size: u64_from_le_bytes(slice_subrange(data, base + 16, base + 24)),
                bwrap_size: u64_from_le_bytes(slice_subrange(data, base + 24, base + 32)),
                unsquashfs_size: u64_from_le_bytes(slice_subrange(data, base + 32, base + 40)),
            },
        )
    }
}

/// The little-endian `u64` stored at `start` in `data`.
pub open spec fn word_at(data: Seq<u8>, start: int) -> u64 {
    spec_u64_from_le_bytes(data.subrange(start, start + 8))
}

/// The footer stored in the last [`FOOTER_SIZE`] bytes of `data`, if those
/// bytes end with [`FOOTER_MAGIC`].
pub open spec fn parse_footer(data: Seq<u8>) -> Option<Footer> {
    if data.len() < FOOTER_SIZE {
        None
    } else {
        let base = data.len() - FOOTER_SIZE;
        if word_at(data, base + 48) != FOOTER_MAGIC {
            None
        } else {
            Some(
                Footer {
                    payload_offset: word_at(data, base),
                    payload_size: word_at(data, base + 8),
                    config_size: word_at(data, base + 16),
                    bwrap_size: word_at(data, base + 24),
                    unsquashfs_size: word_at(data, base + 32),
                },
            )
        }
    }
}

/// A footer written after any bytes is read back unchanged from the whole:
/// `from_bytes(prefix ++ to_bytes(f)) == Some(f)`.
pub proof fn lemma_footer_roundtrip(prefix: Seq<u8>, f: Footer)
    ensures
        f.encode().len() == FOOTER_SIZE,
        parse_footer(prefix + f.encode()) == Some(f),
{
    lemma_auto_spec_u64_to_from_le_bytes();
    let e = f.encode();
    let data = prefix + e;
    let base = prefix.len() as int;
    assert(e.len() == FOOTER_SIZE);
    assert(data.subrange(base, base + 8) =~= spec_u64_to_le_bytes(f.payload_offset));
    assert(data.subrange(base + 8, base + 16) =~= spec_u64_to_le_bytes(f.payload_size));
    assert(data.subrange(base + 16, base + 24) =~= spec_u64_to_le_bytes(f.config_size));
    assert(data.subrange(base + 24, base + 32) =~= spec_u64_to_le_bytes(f.bwrap_size));
    assert(data.subrange(base + 32, base + 40) =~= spec_u64_to_le_bytes(f.unsquashfs_size));
    assert(data.subrange(base + 48, base + 56) =~= spec_u64_to_le_bytes(FOOTER_MAGIC));
}

/// The footer that records five sections of the given lengths, written one
/// after the other from offset zero: runner, payload, bwrap, unsquashfs,
/// config.
pub open spec fn sections_footer(
    runner_len: nat,
    payload_len: nat,
    bwrap_len: nat,
    unsquashfs_len: nat,
    config_len: nat,
) -> Footer {
    Footer {
        payload_offset: runner_len as u64,
        payload_size: payload_len as u64,
        config_size: config_len as u64,
        bwrap_size: bwrap_len as u64,
        unsquashfs_size: unsquashfs_len as u64,
    }
}

/// The bytes of a packed executable: the five sections in canonical order,
/// then the footer that locates them.
pub open spec fn packed_image(
    runner: Seq<u8>,
    payload: Seq<u8>,
    bwrap: Seq<u8>,
    unsquashfs: Seq<u8>,
    config: Seq<u8>,
) -> Seq<u8> {
    runner + payload + bwrap + unsquashfs + config + sections_footer(
        runner.len(),
        payload.len(),
        bwrap.len(),
        unsquashfs.len(),
        config.len(),
    ).encode()
}

/// Appends `src` to `out`.
fn append_bytes(out: &mut Vec<u8>, src: &[u8])
    requires
        old(out)@.len() + src@.len() <= usize::MAX,
    ensures
        final(out)@ == old(out)@ + src@,
{
    let mut i: usize = 0;
    while i < src.len()
        invariant
            i <= src@.len(),
            old(out)@.len() + src@.len() <= usize::MAX,
            out@ == old(out)@ + src@.subrange(0, i as int),
        decreases src@.len() - i,
    {
        out.push(src[i]);
        i = i + 1;
        assert(out@ =~= old(out)@ + src@.subrange(0, i as int));
    }
    assert(src@.subrange(0, i as int) =~= src@);
}

/// Appends the five payload sections to `out` in canonical order and returns
/// the footer that records them. The write order and the footer fields are
/// defined in one place so they cannot diverge: each field holds the size of
/// the section written just before the one it locates.
pub fn write_sections(
    out: &mut Vec<u8>,
    runner: &[u8],
    payload: &[u8],
    bwrap: &[u8],
    unsquashfs: &[u8],
    config: &[u8],
) -> (f: Footer)
    requires
        old(out)@.len() + runner@.len() + payload@.len() + bwrap@.len() + unsquashfs@.len()
            + config@.len() <= usize::MAX,
    ensures
        final(out)@ == old(out)@ + runner@ + payload@ + bwrap@ + unsquashfs@ + config@,
        f == sections_footer(
            runner@.len(),
            payload@.len(),
            bwrap@.len(),
            unsquashfs@.len(),
            config@.len(),
        ),
{
    append_bytes(out, runner);
    append_bytes(out, payload);
    append_bytes(out, bwrap);
    append_bytes(out, unsquashfs);
    append_bytes(out, config);
    Footer {
        payload_offset: runner.len() as u64,
        payload_size: payload.len() as u64,
        config_size: config.len() as u64,
        bwrap_size: bwrap.len() as u64,
        unsquashfs_size: unsquashfs.len() as u64,
    }
}

/// Builds a whole packed executable: runner, payload, bwrap, unsquashfs and
/// config JSON, followed by the footer that locates them.
pub fn assemble_image(
    runner: &[u8],
    payload: &[u8],
    bwrap: &[u8],
    unsquashfs: &[u8],
    config: &[u8],
) -> (r: (Vec<u8>, Footer))
    requires
        runner@.len() + payload@.len() + bwrap@.len() + unsquashfs@.len() + config@.len()
            + FOOTER_SIZE <= usize::MAX,
    ensures
        r.0@ == packed_image(runner@, payload@, bwrap@, unsquashfs@, config@),
        r.1 == sections_footer(
            runner@.len(),
            payload@.len(),
            bwrap@.len(),
            unsquashfs@.len(),
            config@.len(),
        ),
{
    let mut out: Vec<u8> = Vec::new();
    let footer = write_sections(&mut out, runner, payload, bwrap, unsquashfs, config);
    let bytes = footer.to_bytes();
    append_bytes(&mut out, bytes.as_slice());
    proof {
        assert(out@ =~= packed_image(runner@, payload@, bwrap@, unsquashfs@, config@));
    }
    (out, footer)
}

/// A packed executable locates its own sections: its footer parses back, and
/// the ranges that the footer gives hold the payload, bwrap, unsquashfs and
/// config sections that were packed.
pub proof fn lemma_packed_sections_located(
    runner: Seq<u8>,
    payload: Seq<u8>,
    bwrap: Seq<u8>,
    unsquashfs: Seq<u8>,
    config: Seq<u8>,
)
    requires
        runner.len() + payload.len() + bwrap.len() + unsquashfs.len() + config.len() <= u64::MAX,
    ensures
        ({
            let image = packed_image(runner, payload, bwrap, unsquashfs, config);
            let f = sections_footer(
                runner.len(),
                payload.len(),
                bwrap.len(),
                unsquashfs.len(),
                config.len(),
            );
            &&& parse_footer(image) == Some(f)
            &&& f.spec_config_offset() + f.config_size + FOOTER_SIZE == image.len()
            &&& image.subrange(f.payload_offset as int, f.payload_offset + f.payload_size)
                == payload
            &&& image.subrange(f.spec_bwrap_offset(), f.spec_bwrap_offset() + f.bwrap_size)
                == bwrap
            &&& image.subrange(
                f.spec_unsquashfs_offset(),
                f.spec_unsquashfs_offset() + f.unsquashfs_size,
            ) == unsquashfs
            &&& image.subrange(f.spec_config_offset(), f.spec_config_offset() + f.config_size)
                == config
        }),
{
    let f = sections_footer(
        runner.len(),
        payload.len(),
        bwrap.len(),
        unsquashfs.len(),
        config.len(),
    );
    let body = runner + payload + bwrap + unsquashfs + config;
    let image = body + f.encode();
    lemma_footer_roundtrip(body, f);
    let a = runner.len() as int;
    let b = a + payload.len();
    let c = b + bwrap.len();
    let d = c + unsquashfs.len();
    let e = d + config.len();
    assert(image.subrange(a, b) =~= payload);
    assert(image.subrange(b, c) =~= bwrap);
    assert(image.subrange(c, d) =~= unsquashfs);
    assert(image.subrange(d, e) =~= config);
}

} // verus!
