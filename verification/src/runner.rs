//! The packed executable at run time: finding its own sections, its cache
//! directory, and which rootfs strategy an earlier run left behind.
use crate::config::ContainerConfig;
use crate::error::BonkError;
use crate::footer::{parse_footer, Footer, FOOTER_SIZE};
use crate::path::{join_str, push_path};
use std::collections::hash_map::DefaultHasher;
use vstd::prelude::*;
use vstd::slice::slice_subrange;
use vstd::std_specs::hash::DefaultHasherAdditionalSpecFns;

verus! {

/// The running executable's own bytes, its footer and its config.
pub struct BinaryData {
    pub exe_data: Vec<u8>,
    pub footer: Footer,
    pub config: ContainerConfig,
}

/// Whether `data` holds the range of `len` bytes at `start`.
pub open spec fn in_range(data: Seq<u8>, start: int, len: int) -> bool {
    start + len <= data.len()
}

/// The footer of an executable's bytes: an executable shorter than a
/// footer, or one that does not end with the footer magic, is refused.
pub fn footer_of(exe_data: &[u8]) -> (r: Result<Footer, BonkError>)
    ensures
        exe_data@.len() < FOOTER_SIZE ==> r == Err::<Footer, BonkError>(BonkError::BinaryTooSmall),
        exe_data@.len() >= FOOTER_SIZE ==> r == match parse_footer(exe_data@) {
            Some(f) => Ok::<Footer, BonkError>(f),
            None => Err::<Footer, BonkError>(BonkError::NotBonkBinary),
        },
{
    if exe_data.len() < FOOTER_SIZE {
        return Err(BonkError::BinaryTooSmall);
    }
    match Footer::from_bytes(exe_data) {
        Some(f) => Ok(f),
        None => Err(BonkError::NotBonkBinary),
    }
}

/// How an executable's bytes load: refused if shorter than a footer, if they
/// do not end with the footer magic, or if the config section that the
/// footer records does not lie inside them; else the footer.
pub open spec fn load_spec(exe: Seq<u8>) -> Result<Footer, BonkError> {
    if exe.len() < FOOTER_SIZE {
        Err(BonkError::BinaryTooSmall)
    } else {
        match parse_footer(exe) {
            None => Err(BonkError::NotBonkBinary),
            Some(f) => if in_range(exe, f.spec_config_offset(), f.config_size as int) {
                Ok(f)
            } else {
                Err(BonkError::SectionOutOfRange)
            },
        }
    }
}

/// Whether `len` bytes at `start` lie inside `data` (computed without
/// overflow).
fn in_range_exec(data: &[u8], start: u128, len: u128) -> (r: bool)
    requires
        start <= 4 * 0x1_0000_0000_0000_0000,
        len <= 0xffff_ffff_ffff_ffff,
    ensures
        r == in_range(data@, start as int, len as int),
{
    start + len <= data.len() as u128
}

/// Reads an executable's footer and checks, before slicing, that the config
/// section it records lies inside the executable; returns the footer and
/// the config JSON bytes (see [`load_spec`]).
pub fn locate_config(exe_data: &[u8]) -> (r: Result<(Footer, &[u8]), BonkError>)
    ensures
        match r {
            Ok((f, c)) => load_spec(exe_data@) == Ok::<Footer, BonkError>(f) && c@
                == exe_data@.subrange(f.spec_config_offset(), f.spec_config_offset() + f.config_size),
            Err(e) => load_spec(exe_data@) == Err::<Footer, BonkError>(e),
        },
{
    let footer = match footer_of(exe_data) {
        Ok(f) => f,
        Err(e) => return Err(e),
    };
    let start = footer.payload_offset as u128 + footer.payload_size as u128
        + footer.bwrap_size as u128 + footer.unsquashfs_size as u128;
    if !in_range_exec(exe_data, start, footer.config_size as u128) {
        return Err(BonkError::SectionOutOfRange);
    }
    let config = config_section(exe_data, &footer);
    Ok((footer, config))
}

/// The config JSON section of an executable.
pub fn config_section<'a>(exe_data: &'a [u8], footer: &Footer) -> (r: &'a [u8])
    requires
        in_range(exe_data@, footer.spec_config_offset(), footer.config_size as int),
    ensures
        r@ == exe_data@.subrange(
            footer.spec_config_offset(),
            footer.spec_config_offset() + footer.config_size,
        ),
{
    let _n = exe_data.len();
    let start = footer.config_offset() as usize;
    slice_subrange(exe_data, start, start + footer.config_size as usize)
}

impl BinaryData {
    /// Whether the payload range of the footer lies inside the executable.
    pub open spec fn payload_in_range(&self) -> bool {
        in_range(self.exe_data@, self.footer.payload_offset as int, self.footer.payload_size as int)
    }

    /// The payload bytes that the footer records.
    pub open spec fn payload_view(&self) -> Seq<u8> {
        self.exe_data@.subrange(
            self.footer.payload_offset as int,
            self.footer.payload_offset + self.footer.payload_size,
        )
    }

    /// Whether the embedded tools' ranges lie inside the executable.
    pub open spec fn tools_in_range(&self) -> bool {
        &&& in_range(self.exe_data@, self.footer.spec_bwrap_offset(), self.footer.bwrap_size as int)
        &&& in_range(
            self.exe_data@,
            self.footer.spec_unsquashfs_offset(),
            self.footer.unsquashfs_size as int,
        )
    }

    /// Whether every section that the footer records, and that the runner
    /// reads, lies inside the executable: the payload, and the two tools when
    /// the executable embeds them.
    pub open spec fn sections_in_range(&self) -> bool {
        &&& self.payload_in_range()
        &&& (self.footer.bwrap_size > 0 && self.footer.unsquashfs_size > 0) ==> self.tools_in_range()
    }

    /// The running executable's data, after checking that the payload and
    /// the embedded tools lie inside the executable; refused otherwise.
    pub fn from_parts(exe_data: Vec<u8>, footer: Footer, config: ContainerConfig) -> (r: Result<
        BinaryData,
        BonkError,
    >)
        ensures
            match r {
                Ok(b) => b.exe_data@ == exe_data@ && b.footer == footer && b.config == config
                    && b.sections_in_range(),
                Err(e) => e == BonkError::SectionOutOfRange && !(BinaryData {
                    exe_data,
                    footer,
                    config,
                }).sections_in_range(),
            },
    {
        let ghost before = exe_data@;
        let payload_ok = in_range_exec(
            exe_data.as_slice(),
            footer.payload_offset as u128,
            footer.payload_size as u128,
        );
        let bwrap_start = footer.payload_offset as u128 + footer.payload_size as u128;
        let unsquashfs_start = bwrap_start + footer.bwrap_size as u128;
        let tools_ok = !footer.has_embedded_tools() || (in_range_exec(
            exe_data.as_slice(),
            bwrap_start,
            footer.bwrap_size as u128,
        ) && in_range_exec(exe_data.as_slice(), unsquashfs_start, footer.unsquashfs_size as u128));
        let b = BinaryData { exe_data, footer, config };
        if payload_ok && tools_ok {
            Ok(b)
        } else {
            Err(BonkError::SectionOutOfRange)
        }
    }

    /// The SquashFS payload.
    pub fn payload(&self) -> (r: &[u8])
        requires
            self.payload_in_range(),
        ensures
            r@ == self.exe_data@.subrange(
                self.footer.payload_offset as int,
                self.footer.payload_offset + self.footer.payload_size,
            ),
    {
        let _n = self.exe_data.len();
        let start = self.footer.payload_offset as usize;
        let end = start + self.footer.payload_size as usize;
        slice_subrange(self.exe_data.as_slice(), start, end)
    }

    /// The embedded bwrap binary.
    pub fn bwrap(&self) -> (r: &[u8])
        requires
            self.tools_in_range(),
        ensures
            r@ == self.exe_data@.subrange(
                self.footer.spec_bwrap_offset(),
                self.footer.spec_bwrap_offset() + self.footer.bwrap_size,
            ),
    {
        let _n = self.exe_data.len();
        let start = self.footer.bwrap_offset() as usize;
        slice_subrange(self.exe_data.as_slice(), start, start + self.footer.bwrap_size as usize)
    }

    /// The embedded unsquashfs binary.
    pub fn unsquashfs(&self) -> (r: &[u8])
        requires
            self.tools_in_range(),
        ensures
            r@ == self.exe_data@.subrange(
                self.footer.spec_unsquashfs_offset(),
                self.footer.spec_unsquashfs_offset() + self.footer.unsquashfs_size,
            ),
    {
        let _n = self.exe_data.len();
        let start = self.footer.unsquashfs_offset() as usize;
        slice_subrange(
            self.exe_data.as_slice(),
            start,
            start + self.footer.unsquashfs_size as usize,
        )
    }
}

/// The hexadecimal digit of `n`, lower case.
pub open spec fn hex_digit(n: u64) -> char {
    seq!['0', '1', '2', '3', '4', '5', '6', '7', '8', '9', 'a', 'b', 'c', 'd', 'e', 'f'][n as int]
}

/// `format!("{:016x}", key)`: sixteen lower-case hexadecimal digits, the
/// most significant first.
pub open spec fn hex16(key: u64) -> Seq<char> {
    Seq::new(16, |i: int| hex_digit((key >> ((60 - 4 * i) as u64)) & 0xf))
}

fn hex_digit_exec(n: u64) -> (c: char)
    requires
        n < 16,
    ensures
        c == hex_digit(n),
{
    let digits = ['0', '1', '2', '3', '4', '5', '6', '7', '8', '9', 'a', 'b', 'c', 'd', 'e', 'f'];
    let c = digits[n as usize];
    assert(digits@ =~= seq!['0', '1', '2', '3', '4', '5', '6', '7', '8', '9', 'a', 'b', 'c', 'd', 'e', 'f']);
    c
}

/// The file name of the marker that records the rootfs strategy.
pub open spec fn marker_name() -> Seq<char> {
    ".bonk-ready"@
}

/// The cache directory for a payload hash: `/tmp/bonk-<key as 16 hex digits>`.
pub open spec fn cache_dir(key: u64) -> Seq<char> {
    "/tmp/bonk-"@ + hex16(key)
}

/// Where a payload's rootfs is cached.
pub struct CachePaths {
    /// The cache directory.
    pub dir: String,
    /// `rootfs/` in it: the mountpoint or the extracted rootfs.
    pub rootfs: String,
    /// `rootfs.sqfs` in it: the SquashFS file.
    pub sqfs: String,
    /// `.bonk-ready` in it: records which strategy was used.
    pub marker: String,
}

impl CachePaths {
    /// The cache paths of the payload whose hash is `key`.
    pub open spec fn is_for_key(&self, key: u64) -> bool {
        &&& self.dir@ == cache_dir(key)
        &&& self.rootfs@ == push_path(cache_dir(key), "rootfs"@)
        &&& self.sqfs@ == push_path(cache_dir(key), "rootfs.sqfs"@)
        &&& self.marker@ == push_path(cache_dir(key), marker_name())
    }

    /// The cache paths of the payload whose hash is `key`.
    pub fn for_key(key: u64) -> (r: CachePaths)
        ensures
            r.is_for_key(key),
    {
        let mut dir = "/tmp/bonk-".to_owned();
        let ghost start = dir@;
        let mut i: u64 = 0;
        while i < 16
            invariant
                i <= 16,
                dir@ == start + hex16(key).take(i as int),
            decreases 16 - i,
        {
            let sh: u64 = 60 - 4 * i;
            let v: u64 = (key >> sh) & 0xf;
            assert(v < 16) by (bit_vector)
                requires
                    v == (key >> sh) & 0xf,
            ;
            let d = hex_digit_exec(v);
            dir.push(d);
            i = i + 1;
            assert(dir@ =~= start + hex16(key).take(i as int));
        }
        assert(hex16(key).take(16) =~= hex16(key));
        proof {
            reveal_strlit("/tmp/bonk-");
            reveal_strlit("rootfs");
            reveal_strlit("rootfs.sqfs");
            reveal_strlit(".bonk-ready");
        }
        let rootfs = join_str(dir.as_str(), "rootfs");
        let sqfs = join_str(dir.as_str(), "rootfs.sqfs");
        let marker = join_str(dir.as_str(), ".bonk-ready");
        CachePaths { dir, rootfs, sqfs, marker }
    }

    /// The cache paths of the running executable's payload: the cache key
    /// is what a fresh `DefaultHasher` finishes with after it was fed exactly
    /// [`cache_key_input`] of the payload: the length of its first 4 KiB,
    /// those bytes, and the payload's length (see [`payload_key`]). How a
    /// length is turned into bytes depends on the machine, so it is left as
    /// some function `enc` of the length alone.
    pub fn new(binary: &BinaryData) -> (r: CachePaths)
        requires
            binary.payload_in_range(),
        ensures
            exists|enc: spec_fn(usize) -> Seq<u8>|
                r.is_for_key(#[trigger] payload_key(binary.payload_view(), enc)),
    {
        let payload = binary.payload();
        let (head, len) = cache_key_input(payload);
        let key = payload_hash(head, len);
        let r = CachePaths::for_key(key);
        proof {
            let enc = choose|enc: spec_fn(usize) -> Seq<u8>| key == hashed_pair(head@, len, enc);
            assert(payload@ == binary.payload_view());
            assert(key == payload_key(binary.payload_view(), enc));
        }
        r
    }
}

/// The cache key of a payload, given how a length is encoded: `finish` of
/// a `DefaultHasher` fed the length of the payload's first 4 KiB (or of all
/// of it, if shorter), those bytes, and the payload's length.
pub open spec fn payload_key(payload: Seq<u8>, enc: spec_fn(usize) -> Seq<u8>) -> u64 {
    hashed_pair(
        payload.take(cache_key_head_len(payload.len()) as int),
        payload.len() as usize,
        enc,
    )
}

/// `finish` of a new `DefaultHasher` after the writes that hashing the pair
/// (`head`, `len`) makes: `head`'s length, `head`'s bytes, then `len`, each
/// length written as `enc` of it.
pub open spec fn hashed_pair(head: Seq<u8>, len: usize, enc: spec_fn(usize) -> Seq<u8>) -> u64 {
    DefaultHasher::spec_finish(seq![enc(head.len() as usize), head, enc(len)])
}

/// Distinct hexadecimal digit values have distinct digits.
proof fn lemma_hex_digit_injective(n: u64, m: u64)
    requires
        n < 16,
        m < 16,
        hex_digit(n) == hex_digit(m),
    ensures
        n == m,
{
    let s = seq!['0', '1', '2', '3', '4', '5', '6', '7', '8', '9', 'a', 'b', 'c', 'd', 'e', 'f'];
    assert(s[0] == '0' && s[1] == '1' && s[2] == '2' && s[3] == '3' && s[4] == '4' && s[5] == '5'
        && s[6] == '6' && s[7] == '7' && s[8] == '8' && s[9] == '9' && s[10] == 'a' && s[11] == 'b'
        && s[12] == 'c' && s[13] == 'd' && s[14] == 'e' && s[15] == 'f');
}

/// The `i`-th hexadecimal digit value of `key`, the most significant first.
spec fn nibble(key: u64, i: int) -> u64 {
    (key >> ((60 - 4 * i) as u64)) & 0xf
}

/// Distinct keys have distinct sixteen-digit hexadecimal names.
proof fn lemma_hex16_injective(a: u64, b: u64)
    requires
        hex16(a) == hex16(b),
    ensures
        a == b,
{
    assert forall|i: int| 0 <= i < 16 implies #[trigger] nibble(a, i) == nibble(b, i) by {
        let sh = (60 - 4 * i) as u64;
        let x = (a >> sh) & 0xf;
        let y = (b >> sh) & 0xf;
        assert(x < 16 && y < 16) by (bit_vector)
            requires
                x == (a >> sh) & 0xf,
                y == (b >> sh) & 0xf,
        ;
        assert(hex16(a)[i] == hex_digit(x));
        assert(hex16(b)[i] == hex_digit(y));
        lemma_hex_digit_injective(x, y);
    }
    assert(nibble(a, 0) == nibble(b, 0) && nibble(a, 1) == nibble(b, 1) && nibble(a, 2) == nibble(b, 2)
        && nibble(a, 3) == nibble(b, 3) && nibble(a, 4) == nibble(b, 4) && nibble(a, 5) == nibble(b, 5)
        && nibble(a, 6) == nibble(b, 6) && nibble(a, 7) == nibble(b, 7) && nibble(a, 8) == nibble(b, 8)
        && nibble(a, 9) == nibble(b, 9) && nibble(a, 10) == nibble(b, 10) && nibble(a, 11) == nibble(
        b,
        11,
    ) && nibble(a, 12) == nibble(b, 12) && nibble(a, 13) == nibble(b, 13) && nibble(a, 14) == nibble(
        b,
        14,
    ) && nibble(a, 15) == nibble(b, 15));
    assert(a == b) by (bit_vector)
        requires
            (a >> 60u64) & 0xf == (b >> 60u64) & 0xf,
            (a >> 56u64) & 0xf == (b >> 56u64) & 0xf,
            (a >> 52u64) & 0xf == (b >> 52u64) & 0xf,
            (a >> 48u64) & 0xf == (b >> 48u64) & 0xf,
            (a >> 44u64) & 0xf == (b >> 44u64) & 0xf,
            (a >> 40u64) & 0xf == (b >> 40u64) & 0xf,
            (a >> 36u64) & 0xf == (b >> 36u64) & 0xf,
            (a >> 32u64) & 0xf == (b >> 32u64) & 0xf,
            (a >> 28u64) & 0xf == (b >> 28u64) & 0xf,
            (a >> 24u64) & 0xf == (b >> 24u64) & 0xf,
            (a >> 20u64) & 0xf == (b >> 20u64) & 0xf,
            (a >> 16u64) & 0xf == (b >> 16u64) & 0xf,
            (a >> 12u64) & 0xf == (b >> 12u64) & 0xf,
            (a >> 8u64) & 0xf == (b >> 8u64) & 0xf,
            (a >> 4u64) & 0xf == (b >> 4u64) & 0xf,
            (a >> 0u64) & 0xf == (b >> 0u64) & 0xf,
    ;
}

/// Each payload gets its own cache: the key reads only the payload's first
/// 4 KiB and its length, so two payloads that agree on those have the same
/// key; and the cache directory names the key, so two cache paths share a
/// directory only when their keys are equal.
pub proof fn lemma_cache_keyed_by_payload(
    p1: Seq<u8>,
    p2: Seq<u8>,
    enc: spec_fn(usize) -> Seq<u8>,
    r1: CachePaths,
    r2: CachePaths,
    k1: u64,
    k2: u64,
)
    ensures
        p1.len() == p2.len() && p1.take(cache_key_head_len(p1.len()) as int) == p2.take(
            cache_key_head_len(p2.len()) as int,
        ) ==> payload_key(p1, enc) == payload_key(p2, enc),
        r1.is_for_key(k1) && r2.is_for_key(k2) ==> (r1.dir@ == r2.dir@ <==> k1 == k2),
{
    if r1.is_for_key(k1) && r2.is_for_key(k2) && r1.dir@ == r2.dir@ {
        reveal_strlit("/tmp/bonk-");
        assert(hex16(k1) =~= cache_dir(k1).skip(10));
        assert(hex16(k2) =~= cache_dir(k2).skip(10));
        lemma_hex16_injective(k1, k2);
    }
}

/// How many leading payload bytes the cache key covers: at most 4 KiB.
pub open spec fn cache_key_head_len(len: nat) -> nat {
    if len < 4096 {
        len
    } else {
        4096
    }
}

/// What the cache key hashes: the payload's first 4 KiB (all of it if it is
/// shorter) and the payload's length.
pub fn cache_key_input(payload: &[u8]) -> (r: (&[u8], usize))
    ensures
        r.0@ == payload@.take(cache_key_head_len(payload@.len()) as int),
        r.1 == payload@.len(),
{
    let n = if payload.len() < 4096 {
        payload.len()
    } else {
        4096
    };
    (slice_subrange(payload, 0, n), payload.len())
}

/// The std `DefaultHasher` (through `BuildHasher::hash_one`) of the pair
/// (`head`, `payload_len`). `hash_one` starts from a new `DefaultHasher`;
/// hashing the pair hashes `head` (its length, then its bytes in one write)
/// and then `payload_len`; `DefaultHasher` turns each `usize` into one write
/// of its bytes in the machine's order. The contract states this over vstd's
/// model of `DefaultHasher` (the sequence of its writes, and `spec_finish`
/// of them); how a `usize` becomes bytes is left as some function `enc` of
/// the value, since it depends on the machine, and the algorithm behind
/// `finish` is unspecified by std and left unnamed by vstd.
#[verifier::external_body]
fn payload_hash(head: &[u8], payload_len: usize) -> (r: u64)
    ensures
        exists|enc: spec_fn(usize) -> Seq<u8>| r == #[trigger] hashed_pair(head@, payload_len, enc),
{
    std::hash::BuildHasher::hash_one(
        &std::hash::BuildHasherDefault::<std::collections::hash_map::DefaultHasher>::default(),
        (head, payload_len),
    )
}

/// How an earlier run made the rootfs available.
#[derive(Clone, Copy, Debug, PartialEq, Eq, Structural)]
pub enum RootfsStrategy {
    /// The SquashFS image was loop-mounted (read-only).
    Mounted,
    /// The image was extracted to a plain directory.
    Extracted,
}

/// The marker text for a strategy: `mount` or `extract`.
pub open spec fn marker_text_spec(s: RootfsStrategy) -> Seq<char> {
    match s {
        RootfsStrategy::Mounted => "mount"@,
        RootfsStrategy::Extracted => "extract"@,
    }
}

impl RootfsStrategy {
    /// The strategy a cold start used: mounted when the mount succeeded.
    pub fn from_mounted(mounted: bool) -> (r: RootfsStrategy)
        ensures
            r == (if mounted {
                RootfsStrategy::Mounted
            } else {
                RootfsStrategy::Extracted
            }),
    {
        if mounted {
            RootfsStrategy::Mounted
        } else {
            RootfsStrategy::Extracted
        }
    }

    /// The text the marker file holds for this strategy.
    pub fn marker_text(&self) -> (r: &'static str)
        ensures
            r@ == marker_text_spec(*self),
    {
        match self {
            RootfsStrategy::Mounted => "mount",
            RootfsStrategy::Extracted => "extract",
        }
    }

    /// Whether the container sees the rootfs read-only: a mounted SquashFS is.
    pub fn read_only(&self) -> (r: bool)
        ensures
            r == (*self == RootfsStrategy::Mounted),
    {
        match self {
            RootfsStrategy::Mounted => true,
            RootfsStrategy::Extracted => false,
        }
    }
}

/// The strategy recorded by the marker's content; any other content, or no
/// marker, means a cold start.
pub open spec fn prior_strategy_spec(marker: Option<Seq<char>>) -> Option<RootfsStrategy> {
    match marker {
        Some(m) => if m == "mount"@ {
            Some(RootfsStrategy::Mounted)
        } else if m == "extract"@ {
            Some(RootfsStrategy::Extracted)
        } else {
            None
        },
        None => None,
    }
}

/// Reads the marker: which strategy an earlier run used, if any.
pub fn prior_strategy(marker: Option<&str>) -> (r: Option<RootfsStrategy>)
    ensures
        r == prior_strategy_spec(
            match marker {
                Some(m) => Some(m@),
                None => None,
            },
        ),
{
    match marker {
        Some(m) => {
            let mount = "mount".to_owned();
            let extract = "extract".to_owned();
            let text = m.to_owned();
            if text == mount {
                Some(RootfsStrategy::Mounted)
            } else if text == extract {
                Some(RootfsStrategy::Extracted)
            } else {
                None
            }
        },
        None => None,
    }
}

/// A warm run reads back the strategy that the cold run recorded.
pub proof fn lemma_marker_roundtrip(s: RootfsStrategy)
    ensures
        prior_strategy_spec(Some(marker_text_spec(s))) == Some(s),
{
    reveal_strlit("mount");
    reveal_strlit("extract");
    assert("mount"@ != "extract"@) by {
        assert("mount"@.len() != "extract"@.len());
    }
}

/// A packed executable loads: its footer is found, the config section and
/// every section the runner reads lie inside it, and the config bytes are
/// the config that was packed. The lengths must fit the footer's 64-bit
/// fields; a section longer than that cannot be recorded at all.
pub proof fn lemma_packed_image_loads(
    runner: Seq<u8>,
    payload: Seq<u8>,
    bwrap: Seq<u8>,
    unsquashfs: Seq<u8>,
    config: Seq<u8>,
)
    requires
        runner.len() + payload.len() + bwrap.len() + unsquashfs.len() + config.len() <= u64::MAX,
    ensures
        ({
            let image = crate::footer::packed_image(runner, payload, bwrap, unsquashfs, config);
            let f = crate::footer::sections_footer(
                runner.len(),
                payload.len(),
                bwrap.len(),
                unsquashfs.len(),
                config.len(),
            );
            &&& load_spec(image) == Ok::<Footer, BonkError>(f)
            &&& f.payload_offset == runner.len()
            &&& image.subrange(f.spec_config_offset(), f.spec_config_offset() + f.config_size)
                == config
            &&& in_range(image, f.payload_offset as int, f.payload_size as int)
            &&& in_range(image, f.spec_bwrap_offset(), f.bwrap_size as int)
            &&& in_range(image, f.spec_unsquashfs_offset(), f.unsquashfs_size as int)
            &&& image.subrange(f.payload_offset as int, f.payload_offset + f.payload_size)
                == payload
        }),
{
    crate::footer::lemma_packed_sections_located(runner, payload, bwrap, unsquashfs, config);
    crate::footer::lemma_footer_roundtrip(
        runner + payload + bwrap + unsquashfs + config,
        crate::footer::sections_footer(
            runner.len(),
            payload.len(),
            bwrap.len(),
            unsquashfs.len(),
            config.len(),
        ),
    );
}

} // verus!
