//! The format IPC bundles travel in inside a compiled program: `calcc build` packs
//! the bundles a program uses into one blob, the link driver embeds it as data, and
//! the IPC shim reads it back and unpacks it. Defined once, here, so the packing and
//! unpacking sides can't disagree.
//!
//! Layout (all integers little-endian; a "string" is a `u32` byte length followed by
//! UTF-8 bytes):
//!
//! ```text
//! b"CALCBND1"                          magic and version
//! u32 bundle count
//! per bundle:
//!     string name
//!     u64    hash                      FNV-1a 64 of the bundle's file records
//!     u32    file count
//!     per file:
//!         string path                  relative, `/`-separated
//!         u32    mode                  Unix permission bits
//!         u64    length, then that many bytes
//! ```
//!
//! The hash only names the directory a bundle is unpacked into (so a changed bundle
//! never reuses a stale copy); it's not a security check.

use vstd::bytes::{
    spec_u32_from_le_bytes, spec_u32_to_le_bytes, spec_u64_from_le_bytes, spec_u64_to_le_bytes,
    u32_from_le_bytes, u32_to_le_bytes, u64_from_le_bytes, u64_to_le_bytes,
};
use vstd::prelude::*;
use vstd::utf8::{decode_utf8, encode_utf8, valid_utf8};

use crate::text::string_from_utf8;

verus! {

/// FNV-1a 64-bit offset basis.
pub const FNV_OFFSET: u64 = 0xcbf2_9ce4_8422_2325;

/// FNV-1a 64-bit prime.
pub const FNV_PRIME: u64 = 0x0000_0100_0000_01b3;

/// FNV-1a, 64-bit, over `bytes`: the offset basis, then for each byte an xor
/// followed by a wrapping multiplication by the prime.
pub open spec fn spec_fnv1a64(bytes: Seq<u8>) -> u64
    decreases bytes.len(),
{
    if bytes.len() == 0 {
        FNV_OFFSET
    } else {
        vstd::wrapping::u64_specs::wrapping_mul(
            spec_fnv1a64(bytes.drop_last()) ^ (bytes.last() as u64),
            FNV_PRIME,
        )
    }
}

/// FNV-1a, 64-bit: a tiny, stable, non-cryptographic hash.
pub fn fnv1a64(bytes: &[u8]) -> (hash: u64)
    ensures
        hash == spec_fnv1a64(bytes@),
{
    let mut hash: u64 = FNV_OFFSET;
    let mut i: usize = 0;
    while i < bytes.len()
        invariant
            i <= bytes@.len(),
            hash == spec_fnv1a64(bytes@.take(i as int)),
        decreases bytes@.len() - i,
    {
        assert(bytes@.take(i + 1).drop_last() == bytes@.take(i as int));
        hash = (hash ^ (bytes[i] as u64)).wrapping_mul(FNV_PRIME);
        i = i + 1;
    }
    assert(bytes@.take(i as int) == bytes@);
    hash
}

/// One file inside a bundle.
#[derive(Debug, Clone, PartialEq, Eq)]
pub struct BundleFile {
    /// Relative to the bundle's root, `/`-separated, no `..`.
    pub path: String,
    pub mode: u32,
    pub bytes: Vec<u8>,
}

/// A named bundle, as read back from a blob.
#[derive(Debug, Clone, PartialEq, Eq)]
pub struct Bundle {
    pub name: String,
    pub hash: u64,
    pub files: Vec<BundleFile>,
}

/// What a [`BundleFile`] holds, as plain values.
pub struct BundleFileView {
    pub path: Seq<char>,
    pub mode: u32,
    pub bytes: Seq<u8>,
}

/// What a [`Bundle`] holds, as plain values.
pub struct BundleView {
    pub name: Seq<char>,
    pub hash: u64,
    pub files: Seq<BundleFileView>,
}

impl View for BundleFile {
    type V = BundleFileView;

    open spec fn view(&self) -> BundleFileView {
        BundleFileView { path: self.path@, mode: self.mode, bytes: self.bytes@ }
    }
}

/// The views of a sequence of files.
pub open spec fn files_view(files: Seq<BundleFile>) -> Seq<BundleFileView> {
    files.map_values(|f: BundleFile| f@)
}

impl View for Bundle {
    type V = BundleView;

    open spec fn view(&self) -> BundleView {
        BundleView { name: self.name@, hash: self.hash, files: files_view(self.files@) }
    }
}

/// The views of a sequence of bundles.
pub open spec fn bundles_view(bundles: Seq<Bundle>) -> Seq<BundleView> {
    bundles.map_values(|b: Bundle| b@)
}

/// Sum of the lengths of the files' contents.
pub open spec fn spec_size(files: Seq<BundleFileView>) -> int
    decreases files.len(),
{
    if files.len() == 0 {
        0
    } else {
        spec_size(files.drop_last()) + files.last().bytes.len()
    }
}

impl Bundle {
    /// Total size of the bundle's file contents, in bytes.
    pub fn size(&self) -> (total: u64)
        requires
            spec_size(files_view(self.files@)) <= u64::MAX,
        ensures
            total == spec_size(files_view(self.files@)),
    {
        let mut total: u64 = 0;
        let mut i: usize = 0;
        while i < self.files.len()
            invariant
                i <= self.files@.len(),
                spec_size(files_view(self.files@)) <= u64::MAX,
                total == spec_size(files_view(self.files@).take(i as int)),
            decreases self.files@.len() - i,
        {
            let ghost fs = files_view(self.files@);
            assert(fs.take(i + 1).drop_last() == fs.take(i as int));
            proof {
                lemma_size_prefix_monotone(fs, i + 1);
            }
            total = total + self.files[i].bytes.len() as u64;
            i = i + 1;
        }
        assert(files_view(self.files@).take(i as int) == files_view(self.files@));
        total
    }
}

/// The size of a prefix never exceeds the size of the whole.
proof fn lemma_size_prefix_monotone(files: Seq<BundleFileView>, n: int)
    requires
        0 <= n <= files.len(),
    ensures
        spec_size(files.take(n)) <= spec_size(files),
    decreases files.len() - n,
{
    if n < files.len() {
        lemma_size_prefix_monotone(files, n + 1);
        assert(files.take(n + 1).drop_last() == files.take(n));
    } else {
        assert(files.take(n) == files);
    }
}

// ---------------------------------------------------------------------------
// The encoding.

/// `b"CALCBND1"`: identifies a packed blob, and its format version.
pub open spec fn magic() -> Seq<u8> {
    seq![0x43u8, 0x41u8, 0x4cu8, 0x43u8, 0x42u8, 0x4eu8, 0x44u8, 0x31u8]
}

/// A `u32`, little-endian.
pub open spec fn le32(x: u32) -> Seq<u8> {
    spec_u32_to_le_bytes(x)
}

/// A `u64`, little-endian.
pub open spec fn le64(x: u64) -> Seq<u8> {
    spec_u64_to_le_bytes(x)
}

/// A string field: its UTF-8 byte length as a `u32`, then the bytes.
pub open spec fn enc_str(s: Seq<char>) -> Seq<u8> {
    le32(encode_utf8(s).len() as u32) + encode_utf8(s)
}

/// One file's record: path, mode, content length, content.
pub open spec fn file_record(f: BundleFileView) -> Seq<u8> {
    enc_str(f.path) + le32(f.mode) + le64(f.bytes.len() as u64) + f.bytes
}

/// The files' records, one after another.
pub open spec fn file_records(files: Seq<BundleFileView>) -> Seq<u8>
    decreases files.len(),
{
    if files.len() == 0 {
        Seq::empty()
    } else {
        file_records(files.drop_last()) + file_record(files.last())
    }
}

/// A bundle's file count, then its files' records: the bytes its hash covers.
pub open spec fn records(files: Seq<BundleFileView>) -> Seq<u8> {
    le32(files.len() as u32) + file_records(files)
}

/// One bundle: name, hash, records.
pub open spec fn bundle_record(b: BundleView) -> Seq<u8> {
    enc_str(b.name) + le64(b.hash) + records(b.files)
}

/// The bundles' encodings, one after another.
pub open spec fn bundle_records(bundles: Seq<BundleView>) -> Seq<u8>
    decreases bundles.len(),
{
    if bundles.len() == 0 {
        Seq::empty()
    } else {
        bundle_records(bundles.drop_last()) + bundle_record(bundles.last())
    }
}

/// A whole blob holding `bundles`, each with the hash it carries.
pub open spec fn encode(bundles: Seq<BundleView>) -> Seq<u8> {
    magic() + le32(bundles.len() as u32) + bundle_records(bundles)
}

/// The bundle [`pack`] writes for a name and its files: the hash is FNV-1a 64 of
/// the files' records.
pub open spec fn packed_bundle(name: Seq<char>, files: Seq<BundleFileView>) -> BundleView {
    BundleView { name, hash: spec_fnv1a64(records(files)), files }
}

/// [`pack`]'s input, as plain values.
pub open spec fn pack_input(bundles: Seq<(&str, Vec<BundleFile>)>) -> Seq<(Seq<char>, Seq<BundleFileView>)> {
    bundles.map_values(|p: (&str, Vec<BundleFile>)| (p.0@, files_view(p.1@)))
}

/// The bundles [`pack`] writes for its input.
pub open spec fn packed_bundles(input: Seq<(Seq<char>, Seq<BundleFileView>)>) -> Seq<BundleView> {
    input.map_values(|p: (Seq<char>, Seq<BundleFileView>)| packed_bundle(p.0, p.1))
}

/// The blob [`pack`] writes for its input.
pub open spec fn spec_pack(input: Seq<(Seq<char>, Seq<BundleFileView>)>) -> Seq<u8> {
    encode(packed_bundles(input))
}

// ---------------------------------------------------------------------------
// Packing.

/// Appends `bytes` to `out`.
pub(crate) fn append_bytes(out: &mut Vec<u8>, bytes: &[u8])
    ensures
        final(out)@ == old(out)@ + bytes@,
{
    let mut i: usize = 0;
    while i < bytes.len()
        invariant
            i <= bytes@.len(),
            out@ == old(out)@ + bytes@.take(i as int),
        decreases bytes@.len() - i,
    {
        out.push(bytes[i]);
        assert(bytes@.take(i + 1) == bytes@.take(i as int).push(bytes@[i as int]));
        i = i + 1;
    }
    assert(bytes@.take(i as int) == bytes@);
}

/// Appends a string field: the UTF-8 length as a `u32`, then the bytes.
fn put_str(out: &mut Vec<u8>, s: &str)
    ensures
        final(out)@ == old(out)@ + enc_str(s@),
{
    let bytes = s.as_bytes();
    append_bytes(out, &u32_to_le_bytes(bytes.len() as u32));
    append_bytes(out, bytes);
    assert(out@ == old(out)@ + enc_str(s@));
}

/// The magic bytes, as a vector.
fn magic_bytes() -> (m: Vec<u8>)
    ensures
        m@ == magic(),
{
    let m = vec![0x43u8, 0x41u8, 0x4cu8, 0x43u8, 0x42u8, 0x4eu8, 0x44u8, 0x31u8];
    assert(m@ == magic());
    m
}

/// The records of `files`: their count, then each file's record.
fn pack_records(files: &Vec<BundleFile>) -> (out: Vec<u8>)
    ensures
        out@ == records(files_view(files@)),
{
    let ghost fs = files_view(files@);
    let mut out = u32_to_le_bytes(files.len() as u32);
    let mut j: usize = 0;
    while j < files.len()
        invariant
            j <= files@.len(),
            fs == files_view(files@),
            out@ == le32(files@.len() as u32) + file_records(fs.take(j as int)),
        decreases files@.len() - j,
    {
        let file = &files[j];
        let ghost before = out@;
        put_str(&mut out, file.path.as_str());
        append_bytes(&mut out, &u32_to_le_bytes(file.mode));
        append_bytes(&mut out, &u64_to_le_bytes(file.bytes.len() as u64));
        append_bytes(&mut out, file.bytes.as_slice());
        assert(fs.take(j + 1).drop_last() == fs.take(j as int));
        assert(fs.take(j + 1).last() == file@);
        assert(out@ == before + file_record(file@));
        j = j + 1;
    }
    assert(fs.take(j as int) == fs);
    out
}

/// Packs `bundles` (name, files) into one blob, computing each bundle's hash.
pub fn pack(bundles: &[(&str, Vec<BundleFile>)]) -> (out: Vec<u8>)
    ensures
        out@ == spec_pack(pack_input(bundles@)),
{
    let ghost bs = packed_bundles(pack_input(bundles@));
    let mut out = magic_bytes();
    append_bytes(&mut out, &u32_to_le_bytes(bundles.len() as u32));
    let mut i: usize = 0;
    while i < bundles.len()
        invariant
            i <= bundles@.len(),
            bs == packed_bundles(pack_input(bundles@)),
            out@ == magic() + le32(bundles@.len() as u32) + bundle_records(bs.take(i as int)),
        decreases bundles@.len() - i,
    {
        let name: &str = bundles[i].0;
        let files: &Vec<BundleFile> = &bundles[i].1;
        let ghost before = out@;
        let records = pack_records(files);
        put_str(&mut out, name);
        append_bytes(&mut out, &u64_to_le_bytes(fnv1a64(records.as_slice())));
        append_bytes(&mut out, records.as_slice());
        assert(bs.take(i + 1).drop_last() == bs.take(i as int));
        assert(bs.take(i + 1).last() == packed_bundle(name@, files_view(files@)));
        assert(out@ == before + bundle_record(packed_bundle(name@, files_view(files@))));
        i = i + 1;
    }
    assert(bs.take(i as int) == bs);
    proof {
        assert(bs.len() == bundles@.len());
    }
    out
}


// ---------------------------------------------------------------------------
// Reading a blob back.

/// Whether `path` (its UTF-8 bytes) is a safe relative path: non-empty, with no
/// `\` or `:`, no empty component (so no leading, trailing or doubled `/`), and no
/// `.` or `..` component — so joining it onto a directory can't land outside it.
pub open spec fn safe_path_bytes(b: Seq<u8>) -> bool {
    &&& b.len() > 0
    &&& forall|i: int| 0 <= i < b.len() ==> #[trigger] b[i] != 0x5cu8 && b[i] != 0x3au8
    &&& b[0] != 0x2fu8
    &&& b[b.len() - 1] != 0x2fu8
    &&& forall|i: int| 0 <= i < b.len() - 1 && #[trigger] b[i] == 0x2fu8 ==> b[i + 1] != 0x2fu8
    &&& forall|i: int|
        0 <= i < b.len() && #[trigger] b[i] == 0x2eu8 && (i == 0 || b[i - 1] == 0x2fu8) ==> {
            &&& !(i + 1 == b.len() || b[i + 1] == 0x2fu8)
            &&& !(i + 1 < b.len() && b[i + 1] == 0x2eu8 && (i + 2 == b.len() || b[i + 2] == 0x2fu8))
        }
}

/// Whether a path string is a safe relative path (see [`safe_path_bytes`]).
pub open spec fn safe_path(p: Seq<char>) -> bool {
    safe_path_bytes(encode_utf8(p))
}

/// Relative, `/`-separated, and without `..`, `.` or empty components — so joining
/// it onto a directory can't land outside that directory.
fn is_safe_relative_path(path: &str) -> (safe: bool)
    ensures
        safe == safe_path(path@),
{
    let b = path.as_bytes();
    let n = b.len();
    if n == 0 || b[0] == 0x2fu8 || b[n - 1] == 0x2fu8 {
        return false;
    }
    let mut i: usize = 0;
    while i < n
        invariant
            n == b@.len(),
            b@ == encode_utf8(path@),
            0 < n,
            b@[0] != 0x2fu8,
            b@[n - 1] != 0x2fu8,
            i <= n,
            forall|k: int| 0 <= k < i ==> #[trigger] b@[k] != 0x5cu8 && b@[k] != 0x3au8,
            forall|k: int| 0 <= k < i && k < n - 1 && #[trigger] b@[k] == 0x2fu8 ==> b@[k + 1] != 0x2fu8,
            forall|k: int|
                0 <= k < i && #[trigger] b@[k] == 0x2eu8 && (k == 0 || b@[k - 1] == 0x2fu8) ==> {
                    &&& !(k + 1 == n || b@[k + 1] == 0x2fu8)
                    &&& !(k + 1 < n && b@[k + 1] == 0x2eu8 && (k + 2 == n || b@[k + 2] == 0x2fu8))
                },
        decreases n - i,
    {
        let c = b[i];
        if c == 0x5cu8 || c == 0x3au8 {
            return false;
        }
        if c == 0x2fu8 && i + 1 < n && b[i + 1] == 0x2fu8 {
            return false;
        }
        if c == 0x2eu8 && (i == 0 || b[i - 1] == 0x2fu8) {
            if i + 1 == n || b[i + 1] == 0x2fu8 {
                return false;
            }
            if b[i + 1] == 0x2eu8 && (i + 2 == n || b[i + 2] == 0x2fu8) {
                return false;
            }
        }
        i = i + 1;
    }
    true
}

/// `n` bytes off the front of `s`, and the rest.
pub open spec fn spec_take(s: Seq<u8>, n: int) -> Option<(Seq<u8>, Seq<u8>)> {
    if 0 <= n <= s.len() {
        Some((s.take(n), s.skip(n)))
    } else {
        None
    }
}

/// A little-endian `u32` off the front of `s`, and the rest.
pub open spec fn spec_read_u32(s: Seq<u8>) -> Option<(u32, Seq<u8>)> {
    if 4 <= s.len() {
        Some((spec_u32_from_le_bytes(s.take(4)), s.skip(4)))
    } else {
        None
    }
}

/// A little-endian `u64` off the front of `s`, and the rest.
pub open spec fn spec_read_u64(s: Seq<u8>) -> Option<(u64, Seq<u8>)> {
    if 8 <= s.len() {
        Some((spec_u64_from_le_bytes(s.take(8)), s.skip(8)))
    } else {
        None
    }
}

/// A string field off the front of `s`: its bytes must be valid UTF-8.
pub open spec fn spec_read_str(s: Seq<u8>) -> Option<(Seq<char>, Seq<u8>)> {
    match spec_read_u32(s) {
        Some((len, rest)) => if len <= rest.len() && valid_utf8(rest.take(len as int)) {
            Some((decode_utf8(rest.take(len as int)), rest.skip(len as int)))
        } else {
            None
        },
        None => None,
    }
}

/// One file record off the front of `s`; its path must be safe, and its length
/// must fit in a `usize`.
pub open spec fn spec_read_file(s: Seq<u8>) -> Option<(BundleFileView, Seq<u8>)> {
    match spec_read_str(s) {
        Some((path, r1)) => if !safe_path(path) {
            None
        } else {
            match spec_read_u32(r1) {
                Some((mode, r2)) => match spec_read_u64(r2) {
                    Some((len, r3)) => if len <= usize::MAX && len <= r3.len() {
                        Some((
                            BundleFileView { path, mode, bytes: r3.take(len as int) },
                            r3.skip(len as int),
                        ))
                    } else {
                        None
                    },
                    None => None,
                },
                None => None,
            }
        },
        None => None,
    }
}

/// `n` file records off the front of `s`.
pub open spec fn spec_read_files(s: Seq<u8>, n: nat) -> Option<(Seq<BundleFileView>, Seq<u8>)>
    decreases n,
{
    if n == 0 {
        Some((Seq::empty(), s))
    } else {
        match spec_read_files(s, (n - 1) as nat) {
            Some((files, rest)) => match spec_read_file(rest) {
                Some((f, r)) => Some((files.push(f), r)),
                None => None,
            },
            None => None,
        }
    }
}

/// One bundle off the front of `s`: name, hash, file count, files.
pub open spec fn spec_read_bundle(s: Seq<u8>) -> Option<(BundleView, Seq<u8>)> {
    match spec_read_str(s) {
        Some((name, r1)) => match spec_read_u64(r1) {
            Some((hash, r2)) => match spec_read_u32(r2) {
                Some((count, r3)) => match spec_read_files(r3, count as nat) {
                    Some((files, r4)) => Some((BundleView { name, hash, files }, r4)),
                    None => None,
                },
                None => None,
            },
            None => None,
        },
        None => None,
    }
}

/// `n` bundles off the front of `s`.
pub open spec fn spec_read_bundles(s: Seq<u8>, n: nat) -> Option<(Seq<BundleView>, Seq<u8>)>
    decreases n,
{
    if n == 0 {
        Some((Seq::empty(), s))
    } else {
        match spec_read_bundles(s, (n - 1) as nat) {
            Some((bundles, rest)) => match spec_read_bundle(rest) {
                Some((b, r)) => Some((bundles.push(b), r)),
                None => None,
            },
            None => None,
        }
    }
}

/// What [`parse`] reads out of `blob`: nothing from an empty blob; otherwise the
/// magic, a count, that many bundles, and nothing after them.
pub open spec fn spec_parse(blob: Seq<u8>) -> Option<Seq<BundleView>> {
    if blob.len() == 0 {
        Some(Seq::empty())
    } else if blob.len() >= 8 && blob.take(8) == magic() {
        match spec_read_u32(blob.skip(8)) {
            Some((count, r1)) => match spec_read_bundles(r1, count as nat) {
                Some((bundles, r2)) => if r2.len() == 0 {
                    Some(bundles)
                } else {
                    None
                },
                None => None,
            },
            None => None,
        }
    } else {
        None
    }
}

/// A cursor over the bytes still to be read.
struct Reader<'a>(&'a [u8]);

impl<'a> Reader<'a> {
    fn take(&mut self, n: usize) -> (r: Option<&'a [u8]>)
        ensures
            match spec_take(old(self).0@, n as int) {
                Some((head, rest)) => r matches Some(h) && h@ == head && final(self).0@ == rest,
                None => r is None,
            },
    {
        if self.0.len() < n {
            return None;
        }
        let (head, rest) = self.0.split_at(n);
        self.0 = rest;
        Some(head)
    }

    fn u32(&mut self) -> (r: Option<u32>)
        ensures
            match spec_read_u32(old(self).0@) {
                Some((x, rest)) => r == Some(x) && final(self).0@ == rest,
                None => r is None,
            },
    {
        let bytes = self.take(4)?;
        assert(bytes@ == old(self).0@.take(4));
        Some(u32_from_le_bytes(bytes))
    }

    fn u64(&mut self) -> (r: Option<u64>)
        ensures
            match spec_read_u64(old(self).0@) {
                Some((x, rest)) => r == Some(x) && final(self).0@ == rest,
                None => r is None,
            },
    {
        let bytes = self.take(8)?;
        Some(u64_from_le_bytes(bytes))
    }

    fn string(&mut self) -> (r: Option<String>)
        ensures
            match spec_read_str(old(self).0@) {
                Some((s, rest)) => r matches Some(x) && x@ == s && final(self).0@ == rest,
                None => r is None,
            },
    {
        let len = self.u32()? as usize;
        let bytes = self.take(len)?;
        string_from_utf8(bytes)
    }
}


/// Whether two byte slices hold the same bytes.
fn bytes_eq(a: &[u8], b: &[u8]) -> (eq: bool)
    ensures
        eq == (a@ == b@),
{
    if a.len() != b.len() {
        return false;
    }
    let mut i: usize = 0;
    while i < a.len()
        invariant
            a@.len() == b@.len(),
            i <= a@.len(),
            forall|k: int| 0 <= k < i ==> a@[k] == b@[k],
        decreases a@.len() - i,
    {
        if a[i] != b[i] {
            return false;
        }
        i = i + 1;
    }
    assert(a@ == b@);
    true
}

/// Once `m` file records can't be read, no more can.
proof fn lemma_read_files_none(s: Seq<u8>, m: nat, n: nat)
    requires
        m <= n,
        spec_read_files(s, m) is None,
    ensures
        spec_read_files(s, n) is None,
    decreases n - m,
{
    if m < n {
        lemma_read_files_none(s, m, (n - 1) as nat);
    }
}

/// Once `m` bundles can't be read, no more can.
proof fn lemma_read_bundles_none(s: Seq<u8>, m: nat, n: nat)
    requires
        m <= n,
        spec_read_bundles(s, m) is None,
    ensures
        spec_read_bundles(s, n) is None,
    decreases n - m,
{
    if m < n {
        lemma_read_bundles_none(s, m, (n - 1) as nat);
    }
}

/// Reads `count` file records.
fn read_files(r: &mut Reader, count: u32) -> (files: Option<Vec<BundleFile>>)
    ensures
        match spec_read_files(old(r).0@, count as nat) {
            Some((fs, rest)) => files matches Some(v) && files_view(v@) == fs && final(r).0@ == rest,
            None => files is None,
        },
{
    let ghost start = r.0@;
    let mut files: Vec<BundleFile> = Vec::new();
    let mut j: u32 = 0;
    while j < count
        invariant
            j <= count,
            start == old(r).0@,
            spec_read_files(start, j as nat) == Some((files_view(files@), r.0@)),
        decreases count - j,
    {
        let ghost before = r.0@;
        proof {
            if spec_read_file(before) is None {
                lemma_read_files_none(start, (j + 1) as nat, count as nat);
            }
        }
        let path = r.string()?;
        if !is_safe_relative_path(path.as_str()) {
            proof {
                lemma_read_files_none(start, (j + 1) as nat, count as nat);
            }
            return None;
        }
        let mode = r.u32()?;
        let len64 = r.u64()?;
        if len64 > usize::MAX as u64 {
            proof {
                lemma_read_files_none(start, (j + 1) as nat, count as nat);
            }
            return None;
        }
        let len = len64 as usize;
        let bytes = r.take(len)?;
        let file = BundleFile { path, mode, bytes: vstd::slice::slice_to_vec(bytes) };
        let ghost fv = file@;
        let ghost prev = files@;
        files.push(file);
        assert(files_view(files@) =~= files_view(prev).push(fv));
        j = j + 1;
    }
    Some(files)
}


/// Reads one bundle.
fn read_bundle(r: &mut Reader) -> (bundle: Option<Bundle>)
    ensures
        match spec_read_bundle(old(r).0@) {
            Some((b, rest)) => bundle matches Some(x) && x@ == b && final(r).0@ == rest,
            None => bundle is None,
        },
{
    let name = r.string()?;
    let hash = r.u64()?;
    let file_count = r.u32()?;
    let files = read_files(r, file_count)?;
    Some(Bundle { name, hash, files })
}

/// Reads a blob written by [`pack`]. An empty slice means "no bundles" (what a
/// program linked without any gets); anything malformed, or a path that could
/// escape the bundle's directory, is `None`.
pub fn parse(blob: &[u8]) -> (r: Option<Vec<Bundle>>)
    ensures
        match spec_parse(blob@) {
            Some(bs) => r matches Some(v) && bundles_view(v@) == bs,
            None => r is None,
        },
{
    if blob.len() == 0 {
        let v: Vec<Bundle> = Vec::new();
        assert(bundles_view(v@) =~= Seq::<BundleView>::empty());
        return Some(v);
    }
    let mut r = Reader(blob);
    let head = r.take(8)?;
    if !bytes_eq(head, magic_bytes().as_slice()) {
        return None;
    }
    let count = r.u32()?;
    let ghost start = r.0@;
    let mut bundles: Vec<Bundle> = Vec::new();
    let mut i: u32 = 0;
    while i < count
        invariant
            i <= count,
            spec_read_u32(blob@.skip(8)) == Some((count, start)),
            blob@.len() >= 8 && blob@.take(8) == magic(),
            spec_read_bundles(start, i as nat) == Some((bundles_view(bundles@), r.0@)),
        decreases count - i,
    {
        let ghost before = r.0@;
        proof {
            if spec_read_bundle(before) is None {
                lemma_read_bundles_none(start, (i + 1) as nat, count as nat);
            }
        }
        let bundle = read_bundle(&mut r)?;
        let ghost bv = bundle@;
        let ghost prev = bundles@;
        bundles.push(bundle);
        assert(bundles_view(bundles@) =~= bundles_view(prev).push(bv));
        i = i + 1;
    }
    if r.0.len() == 0 {
        Some(bundles)
    } else {
        None
    }
}


// ---------------------------------------------------------------------------
// Packing and parsing agree.

/// A file the format can carry: a safe path, and lengths that fit their fields.
pub open spec fn file_fits(f: BundleFileView) -> bool {
    &&& safe_path(f.path)
    &&& encode_utf8(f.path).len() <= u32::MAX
    &&& f.bytes.len() <= usize::MAX
}

/// Files the format can carry: each one fits, and so does their count.
pub open spec fn files_fit(files: Seq<BundleFileView>) -> bool {
    &&& files.len() <= u32::MAX
    &&& forall|i: int| 0 <= i < files.len() ==> file_fits(#[trigger] files[i])
}

/// A bundle the format can carry.
pub open spec fn bundle_fits(b: BundleView) -> bool {
    &&& encode_utf8(b.name).len() <= u32::MAX
    &&& files_fit(b.files)
}

/// Bundles the format can carry: each one fits, and so does their count.
pub open spec fn bundles_fit(bundles: Seq<BundleView>) -> bool {
    &&& bundles.len() <= u32::MAX
    &&& forall|i: int| 0 <= i < bundles.len() ==> bundle_fits(#[trigger] bundles[i])
}

proof fn lemma_read_u32_le(x: u32, rest: Seq<u8>)
    ensures
        spec_read_u32(le32(x) + rest) == Some((x, rest)),
{
    vstd::bytes::lemma_auto_spec_u32_to_from_le_bytes();
    assert((le32(x) + rest).take(4) =~= le32(x));
    assert((le32(x) + rest).skip(4) =~= rest);
}

proof fn lemma_read_u64_le(x: u64, rest: Seq<u8>)
    ensures
        spec_read_u64(le64(x) + rest) == Some((x, rest)),
{
    vstd::bytes::lemma_auto_spec_u64_to_from_le_bytes();
    assert(spec_u64_to_le_bytes(x).len() == 8);
    assert((le64(x) + rest).take(8) =~= le64(x));
    assert((le64(x) + rest).skip(8) =~= rest);
}

proof fn lemma_read_u32_sound(s: Seq<u8>)
    ensures
        spec_read_u32(s) matches Some((x, rest)) ==> s == le32(x) + rest,
{
    if let Some((x, rest)) = spec_read_u32(s) {
        vstd::bytes::lemma_auto_spec_u32_to_from_le_bytes();
        assert(s.take(4).len() == 4);
        assert(s =~= s.take(4) + s.skip(4));
    }
}

proof fn lemma_read_u64_sound(s: Seq<u8>)
    ensures
        spec_read_u64(s) matches Some((x, rest)) ==> s == le64(x) + rest,
{
    if let Some((x, rest)) = spec_read_u64(s) {
        vstd::bytes::lemma_auto_spec_u64_to_from_le_bytes();
        assert(s.take(8).len() == 8);
        assert(spec_u64_to_le_bytes(spec_u64_from_le_bytes(s.take(8))) == s.take(8));
        assert(s =~= s.take(8) + s.skip(8));
    }
}

proof fn lemma_read_str(st: Seq<char>, rest: Seq<u8>)
    requires
        encode_utf8(st).len() <= u32::MAX,
    ensures
        spec_read_str(enc_str(st) + rest) == Some((st, rest)),
{
    let b = encode_utf8(st);
    vstd::utf8::encode_utf8_valid_utf8(st);
    vstd::utf8::encode_utf8_decode_utf8(st);
    lemma_read_u32_le(b.len() as u32, b + rest);
    assert(enc_str(st) + rest =~= le32(b.len() as u32) + (b + rest));
    assert((b + rest).take(b.len() as int) =~= b);
    assert((b + rest).skip(b.len() as int) =~= rest);
}

proof fn lemma_read_str_sound(s: Seq<u8>)
    ensures
        spec_read_str(s) matches Some((st, rest)) ==> {
            &&& s == enc_str(st) + rest
            &&& encode_utf8(st).len() <= u32::MAX
        },
{
    lemma_read_u32_sound(s);
    if let Some((st, rest)) = spec_read_str(s) {
        let (len, r1) = spec_read_u32(s).unwrap();
        let b = r1.take(len as int);
        vstd::utf8::decode_utf8_encode_utf8(b);
        assert(encode_utf8(st) == b);
        assert(b.len() == len);
        assert(r1 =~= b + rest);
        assert(s =~= enc_str(st) + rest);
    }
}

proof fn lemma_read_file(f: BundleFileView, rest: Seq<u8>)
    requires
        file_fits(f),
    ensures
        spec_read_file(file_record(f) + rest) == Some((f, rest)),
{
    let r3 = f.bytes + rest;
    let r2 = le64(f.bytes.len() as u64) + r3;
    let r1 = le32(f.mode) + r2;
    assert(file_record(f) + rest =~= enc_str(f.path) + r1);
    lemma_read_str(f.path, r1);
    lemma_read_u32_le(f.mode, r2);
    lemma_read_u64_le(f.bytes.len() as u64, r3);
    assert(r3.take(f.bytes.len() as int) =~= f.bytes);
    assert(r3.skip(f.bytes.len() as int) =~= rest);
}

proof fn lemma_read_file_sound(s: Seq<u8>)
    ensures
        spec_read_file(s) matches Some((f, rest)) ==> {
            &&& s == file_record(f) + rest
            &&& file_fits(f)
        },
{
    if let Some((f, rest)) = spec_read_file(s) {
        lemma_read_str_sound(s);
        let (path, r1) = spec_read_str(s).unwrap();
        lemma_read_u32_sound(r1);
        let (mode, r2) = spec_read_u32(r1).unwrap();
        lemma_read_u64_sound(r2);
        let (len, r3) = spec_read_u64(r2).unwrap();
        assert(f.bytes.len() == len);
        assert(r3 =~= f.bytes + rest);
        assert(s =~= file_record(f) + rest);
    }
}

proof fn lemma_read_files(files: Seq<BundleFileView>, rest: Seq<u8>)
    requires
        forall|i: int| 0 <= i < files.len() ==> file_fits(#[trigger] files[i]),
    ensures
        spec_read_files(file_records(files) + rest, files.len()) == Some((files, rest)),
    decreases files.len(),
{
    if files.len() > 0 {
        let init = files.drop_last();
        let tail = file_record(files.last()) + rest;
        assert forall|i: int| 0 <= i < init.len() implies file_fits(#[trigger] init[i]) by {
            assert(init[i] == files[i]);
        }
        lemma_read_files(init, tail);
        assert(file_records(files) + rest =~= file_records(init) + tail);
        assert(file_fits(files[files.len() - 1]));
        lemma_read_file(files.last(), rest);
        assert(init.push(files.last()) =~= files);
    }
}

proof fn lemma_read_files_sound(s: Seq<u8>, n: nat)
    ensures
        spec_read_files(s, n) matches Some((files, rest)) ==> {
            &&& s == file_records(files) + rest
            &&& files.len() == n
            &&& forall|i: int| 0 <= i < files.len() ==> file_fits(#[trigger] files[i])
        },
    decreases n,
{
    if n > 0 {
        lemma_read_files_sound(s, (n - 1) as nat);
        if let Some((files, rest)) = spec_read_files(s, n) {
            let (init, r0) = spec_read_files(s, (n - 1) as nat).unwrap();
            lemma_read_file_sound(r0);
            let (f, r) = spec_read_file(r0).unwrap();
            assert(files == init.push(f));
            assert(files.drop_last() =~= init);
            assert(s =~= file_records(files) + rest);
            assert forall|i: int| 0 <= i < files.len() implies file_fits(#[trigger] files[i]) by {
                if i < init.len() {
                    assert(files[i] == init[i]);
                }
            }
        }
    }
}

proof fn lemma_read_bundle(b: BundleView, rest: Seq<u8>)
    requires
        bundle_fits(b),
    ensures
        spec_read_bundle(bundle_record(b) + rest) == Some((b, rest)),
{
    let r3 = file_records(b.files) + rest;
    let r2 = le32(b.files.len() as u32) + r3;
    let r1 = le64(b.hash) + r2;
    assert(bundle_record(b) + rest =~= enc_str(b.name) + r1);
    lemma_read_str(b.name, r1);
    lemma_read_u64_le(b.hash, r2);
    lemma_read_u32_le(b.files.len() as u32, r3);
    lemma_read_files(b.files, rest);
}

proof fn lemma_read_bundle_sound(s: Seq<u8>)
    ensures
        spec_read_bundle(s) matches Some((b, rest)) ==> {
            &&& s == bundle_record(b) + rest
            &&& bundle_fits(b)
        },
{
    if let Some((b, rest)) = spec_read_bundle(s) {
        lemma_read_str_sound(s);
        let (name, r1) = spec_read_str(s).unwrap();
        lemma_read_u64_sound(r1);
        let (hash, r2) = spec_read_u64(r1).unwrap();
        lemma_read_u32_sound(r2);
        let (count, r3) = spec_read_u32(r2).unwrap();
        lemma_read_files_sound(r3, count as nat);
        assert(b.files.len() as u32 == count);
        assert(s =~= bundle_record(b) + rest);
    }
}

proof fn lemma_read_bundles(bundles: Seq<BundleView>, rest: Seq<u8>)
    requires
        forall|i: int| 0 <= i < bundles.len() ==> bundle_fits(#[trigger] bundles[i]),
    ensures
        spec_read_bundles(bundle_records(bundles) + rest, bundles.len()) == Some((bundles, rest)),
    decreases bundles.len(),
{
    if bundles.len() > 0 {
        let init = bundles.drop_last();
        let tail = bundle_record(bundles.last()) + rest;
        assert forall|i: int| 0 <= i < init.len() implies bundle_fits(#[trigger] init[i]) by {
            assert(init[i] == bundles[i]);
        }
        lemma_read_bundles(init, tail);
        assert(bundle_records(bundles) + rest =~= bundle_records(init) + tail);
        assert(bundle_fits(bundles[bundles.len() - 1]));
        lemma_read_bundle(bundles.last(), rest);
        assert(init.push(bundles.last()) =~= bundles);
    }
}

proof fn lemma_read_bundles_sound(s: Seq<u8>, n: nat)
    ensures
        spec_read_bundles(s, n) matches Some((bundles, rest)) ==> {
            &&& s == bundle_records(bundles) + rest
            &&& bundles.len() == n
            &&& forall|i: int| 0 <= i < bundles.len() ==> bundle_fits(#[trigger] bundles[i])
        },
    decreases n,
{
    if n > 0 {
        lemma_read_bundles_sound(s, (n - 1) as nat);
        if let Some((bundles, rest)) = spec_read_bundles(s, n) {
            let (init, r0) = spec_read_bundles(s, (n - 1) as nat).unwrap();
            lemma_read_bundle_sound(r0);
            let (b, r) = spec_read_bundle(r0).unwrap();
            assert(bundles == init.push(b));
            assert(bundles.drop_last() =~= init);
            assert(s =~= bundle_records(bundles) + rest);
            assert forall|i: int| 0 <= i < bundles.len() implies bundle_fits(#[trigger] bundles[i]) by {
                if i < init.len() {
                    assert(bundles[i] == init[i]);
                }
            }
        }
    }
}

/// Parsing a blob gives back exactly the bundles it encodes, whenever the format
/// can carry them: a safe path for every file, and every length within its field.
pub proof fn lemma_parse_encode(bundles: Seq<BundleView>)
    requires
        bundles_fit(bundles),
    ensures
        spec_parse(encode(bundles)) == Some(bundles),
{
    let blob = encode(bundles);
    let r1 = bundle_records(bundles) + Seq::<u8>::empty();
    assert(blob.take(8) =~= magic());
    assert(blob.skip(8) =~= le32(bundles.len() as u32) + r1);
    lemma_read_u32_le(bundles.len() as u32, r1);
    lemma_read_bundles(bundles, Seq::empty());
    assert(r1 =~= bundle_records(bundles));
}

/// Whatever parsing accepts is an encoding: a non-empty blob that parses to some
/// bundles is exactly their encoding, and they fit the format.
pub proof fn lemma_parse_sound(blob: Seq<u8>)
    ensures
        spec_parse(blob) matches Some(bundles) ==> {
            ||| blob.len() == 0 && bundles.len() == 0
            ||| blob == encode(bundles) && bundles_fit(bundles)
        },
{
    if let Some(bundles) = spec_parse(blob) {
        if blob.len() > 0 {
            lemma_read_u32_sound(blob.skip(8));
            let (count, r1) = spec_read_u32(blob.skip(8)).unwrap();
            lemma_read_bundles_sound(r1, count as nat);
            let (bs, r2) = spec_read_bundles(r1, count as nat).unwrap();
            assert(r2 =~= Seq::<u8>::empty());
            assert(bundles.len() as u32 == count);
            assert(blob =~= blob.take(8) + blob.skip(8));
            assert(blob =~= encode(bundles));
        }
    }
}

/// What [`pack`] writes, [`parse`] reads back: each named bundle, with the files it
/// was given and the hash `pack` computed over their records — whenever the format
/// can carry them.
pub proof fn lemma_pack_parse_roundtrip(input: Seq<(Seq<char>, Seq<BundleFileView>)>)
    requires
        bundles_fit(packed_bundles(input)),
    ensures
        spec_parse(spec_pack(input)) == Some(packed_bundles(input)),
        forall|i: int| 0 <= i < input.len() ==> {
            &&& (#[trigger] packed_bundles(input)[i]).name == input[i].0
            &&& packed_bundles(input)[i].files == input[i].1
            &&& packed_bundles(input)[i].hash == spec_fnv1a64(records(input[i].1))
        },
{
    lemma_parse_encode(packed_bundles(input));
}

/// Reading a `u32` reads the same with bytes appended, which stay in the rest.
proof fn lemma_read_u32_extend(s: Seq<u8>, x: Seq<u8>)
    ensures
        spec_read_u32(s) matches Some((v, r)) ==> spec_read_u32(s + x) == Some((v, r + x)),
{
    if s.len() >= 4 {
        assert((s + x).take(4) =~= s.take(4));
        assert((s + x).skip(4) =~= s.skip(4) + x);
    }
}

/// Reading a `u64` reads the same with bytes appended, which stay in the rest.
proof fn lemma_read_u64_extend(s: Seq<u8>, x: Seq<u8>)
    ensures
        spec_read_u64(s) matches Some((v, r)) ==> spec_read_u64(s + x) == Some((v, r + x)),
{
    if s.len() >= 8 {
        assert((s + x).take(8) =~= s.take(8));
        assert((s + x).skip(8) =~= s.skip(8) + x);
    }
}

/// Reading a string field reads the same with bytes appended.
proof fn lemma_read_str_extend(s: Seq<u8>, x: Seq<u8>)
    ensures
        spec_read_str(s) matches Some((v, r)) ==> spec_read_str(s + x) == Some((v, r + x)),
{
    lemma_read_u32_extend(s, x);
    if let Some((len, rest)) = spec_read_u32(s) {
        if len <= rest.len() {
            assert((rest + x).take(len as int) =~= rest.take(len as int));
            assert((rest + x).skip(len as int) =~= rest.skip(len as int) + x);
        }
    }
}

/// Reading a file record reads the same with bytes appended.
proof fn lemma_read_file_extend(s: Seq<u8>, x: Seq<u8>)
    ensures
        spec_read_file(s) matches Some((v, r)) ==> spec_read_file(s + x) == Some((v, r + x)),
{
    lemma_read_str_extend(s, x);
    if let Some((path, r1)) = spec_read_str(s) {
        lemma_read_u32_extend(r1, x);
        if let Some((mode, r2)) = spec_read_u32(r1) {
            lemma_read_u64_extend(r2, x);
            if let Some((len, r3)) = spec_read_u64(r2) {
                if len <= r3.len() {
                    assert((r3 + x).take(len as int) =~= r3.take(len as int));
                    assert((r3 + x).skip(len as int) =~= r3.skip(len as int) + x);
                }
            }
        }
    }
}

/// Reading `n` file records reads the same with bytes appended.
proof fn lemma_read_files_extend(s: Seq<u8>, n: nat, x: Seq<u8>)
    ensures
        spec_read_files(s, n) matches Some((v, r)) ==> spec_read_files(s + x, n) == Some((v, r + x)),
    decreases n,
{
    if n > 0 {
        lemma_read_files_extend(s, (n - 1) as nat, x);
        if let Some((files, rest)) = spec_read_files(s, (n - 1) as nat) {
            lemma_read_file_extend(rest, x);
        }
    }
}

/// Reading a bundle reads the same with bytes appended.
proof fn lemma_read_bundle_extend(s: Seq<u8>, x: Seq<u8>)
    ensures
        spec_read_bundle(s) matches Some((v, r)) ==> spec_read_bundle(s + x) == Some((v, r + x)),
{
    lemma_read_str_extend(s, x);
    if let Some((name, r1)) = spec_read_str(s) {
        lemma_read_u64_extend(r1, x);
        if let Some((hash, r2)) = spec_read_u64(r1) {
            lemma_read_u32_extend(r2, x);
            if let Some((count, r3)) = spec_read_u32(r2) {
                lemma_read_files_extend(r3, count as nat, x);
            }
        }
    }
}

/// Reading `n` bundles reads the same with bytes appended.
proof fn lemma_read_bundles_extend(s: Seq<u8>, n: nat, x: Seq<u8>)
    ensures
        spec_read_bundles(s, n) matches Some((v, r)) ==> spec_read_bundles(s + x, n) == Some((v, r + x)),
    decreases n,
{
    if n > 0 {
        lemma_read_bundles_extend(s, (n - 1) as nat, x);
        if let Some((bundles, rest)) = spec_read_bundles(s, (n - 1) as nat) {
            lemma_read_bundle_extend(rest, x);
        }
    }
}

/// Bytes left over after the last bundle a blob declares make it malformed: a blob
/// that parses, with anything appended, no longer does (the empty blob aside, which
/// declares no bundles and holds no header).
pub proof fn lemma_parse_rejects_trailing_bytes(blob: Seq<u8>, extra: Seq<u8>)
    requires
        spec_parse(blob) is Some,
        blob.len() > 0,
        extra.len() > 0,
    ensures
        spec_parse(blob + extra) is None,
{
    let b = blob + extra;
    assert(b.take(8) =~= blob.take(8));
    assert(b.skip(8) =~= blob.skip(8) + extra);
    lemma_read_u32_extend(blob.skip(8), extra);
    let (count, r1) = spec_read_u32(blob.skip(8))->0;
    lemma_read_bundles_extend(r1, count as nat, extra);
    let (bundles, r2) = spec_read_bundles(r1, count as nat)->0;
    assert(r2.len() == 0);
    assert((r2 + extra).len() > 0);
}

/// The `/`-separated components of `b`, as `split('/')` gives them: empty ones
/// included, and one (empty) component for an empty `b`.
pub open spec fn path_components(b: Seq<u8>) -> Seq<Seq<u8>>
    decreases b.len(),
{
    if b.len() == 0 {
        seq![Seq::empty()]
    } else if b.last() == 0x2fu8 {
        path_components(b.drop_last()).push(Seq::empty())
    } else {
        let c = path_components(b.drop_last());
        c.update(c.len() - 1, c.last().push(b.last()))
    }
}

/// A component a safe path may have: not empty, not `.` or `..`, and without `\`
/// or `:`.
pub open spec fn component_ok(c: Seq<u8>) -> bool {
    &&& c.len() > 0
    &&& c != seq![0x2eu8]
    &&& c != seq![0x2eu8, 0x2eu8]
    &&& forall|k: int| 0 <= k < c.len() ==> #[trigger] c[k] != 0x5cu8 && c[k] != 0x3au8
}

/// `b` holds no `/`.
pub open spec fn no_slash(b: Seq<u8>) -> bool {
    forall|k: int| 0 <= k < b.len() ==> #[trigger] b[k] != 0x2fu8
}

/// The components `cs`, with `/` between each two.
pub open spec fn join_components(cs: Seq<Seq<u8>>) -> Seq<u8>
    decreases cs.len(),
{
    if cs.len() <= 1 {
        if cs.len() == 1 {
            cs[0]
        } else {
            Seq::empty()
        }
    } else {
        join_components(cs.drop_last()) + seq![0x2fu8] + cs.last()
    }
}

spec fn no_bad_bytes(b: Seq<u8>) -> bool {
    forall|i: int| 0 <= i < b.len() ==> #[trigger] b[i] != 0x5cu8 && b[i] != 0x3au8
}

spec fn no_double_slash(b: Seq<u8>) -> bool {
    forall|i: int| 0 <= i < b.len() - 1 && #[trigger] b[i] == 0x2fu8 ==> b[i + 1] != 0x2fu8
}

spec fn dots_ok(b: Seq<u8>) -> bool {
    forall|i: int|
        0 <= i < b.len() && #[trigger] b[i] == 0x2eu8 && (i == 0 || b[i - 1] == 0x2fu8) ==> {
            &&& !(i + 1 == b.len() || b[i + 1] == 0x2fu8)
            &&& !(i + 1 < b.len() && b[i + 1] == 0x2eu8 && (i + 2 == b.len() || b[i + 2] == 0x2fu8))
        }
}

/// Splitting at `/` and joining again gives the path back, in components without
/// `/`.
proof fn lemma_path_components_join(b: Seq<u8>)
    ensures
        path_components(b).len() >= 1,
        join_components(path_components(b)) == b,
        forall|k: int| 0 <= k < path_components(b).len() ==> no_slash(#[trigger] path_components(b)[k]),
    decreases b.len(),
{
    if b.len() > 0 {
        let c = path_components(b.drop_last());
        lemma_path_components_join(b.drop_last());
        assert(b =~= b.drop_last().push(b.last()));
        if b.last() == 0x2fu8 {
            let d = c.push(Seq::<u8>::empty());
            assert(d.drop_last() =~= c);
            assert(join_components(d) == join_components(c) + seq![0x2fu8] + Seq::<u8>::empty());
            assert(join_components(d) =~= b);
            assert forall|k: int| 0 <= k < d.len() implies no_slash(#[trigger] d[k]) by {
                if k < c.len() {
                    assert(d[k] == c[k]);
                }
            }
        } else {
            let n = c.len() - 1;
            let d = c.update(n, c.last().push(b.last()));
            assert forall|k: int| 0 <= k < d.len() implies no_slash(#[trigger] d[k]) by {
                if k < n {
                    assert(d[k] == c[k]);
                } else {
                    assert(no_slash(c[n]));
                    assert forall|t: int| 0 <= t < d[k].len() implies #[trigger] d[k][t] != 0x2fu8 by {
                        if t < c[n].len() {
                            assert(d[k][t] == c[n][t]);
                        }
                    }
                }
            }
            if c.len() == 1 {
                assert(join_components(d) == d[0]);
                assert(join_components(c) == c[0]);
                assert(d[0] =~= b);
            } else {
                assert(d.drop_last() =~= c.drop_last());
                assert(join_components(d) == join_components(c.drop_last()) + seq![0x2fu8] + d.last());
                assert(join_components(c) == join_components(c.drop_last()) + seq![0x2fu8] + c.last());
                assert(join_components(d) =~= b);
            }
        }
    }
}

/// A single component is safe exactly when it is a good component.
proof fn lemma_safe_component(c: Seq<u8>)
    requires
        no_slash(c),
    ensures
        safe_path_bytes(c) <==> component_ok(c),
{
    if c.len() > 0 {
        assert(c[0] != 0x2fu8);
        assert(c[c.len() - 1] != 0x2fu8);
        if c.len() == 1 && c[0] == 0x2eu8 {
            assert(c =~= seq![0x2eu8]);
        }
        if c.len() == 2 && c[0] == 0x2eu8 && c[1] == 0x2eu8 {
            assert(c =~= seq![0x2eu8, 0x2eu8]);
        }
        if c == seq![0x2eu8] {
            assert(c[0] == 0x2eu8);
        }
        if c == seq![0x2eu8, 0x2eu8] {
            assert(c[0] == 0x2eu8 && c[1] == 0x2eu8);
        }
        if component_ok(c) {
            assert forall|i: int|
                0 <= i < c.len() && #[trigger] c[i] == 0x2eu8 && (i == 0 || c[i - 1] == 0x2fu8) implies {
                &&& !(i + 1 == c.len() || c[i + 1] == 0x2fu8)
                &&& !(i + 1 < c.len() && c[i + 1] == 0x2eu8 && (i + 2 == c.len() || c[i + 2]
                    == 0x2fu8))
            } by {
                assert(i == 0);
            }
        }
    }
}

/// A path with one more component is safe exactly when the path and the component
/// both are.
proof fn lemma_safe_append(a: Seq<u8>, c: Seq<u8>)
    requires
        no_slash(c),
    ensures
        safe_path_bytes(a + seq![0x2fu8] + c) <==> safe_path_bytes(a) && safe_path_bytes(c),
{
    let j = a + seq![0x2fu8] + c;
    let la = a.len() as int;
    assert(j.len() == la + 1 + c.len());
    assert(forall|i: int| 0 <= i < la ==> #[trigger] j[i] == a[i]);
    assert(j[la] == 0x2fu8);
    assert(forall|t: int| 0 <= t < c.len() ==> #[trigger] j[la + 1 + t] == c[t]);
    assert(no_bad_bytes(j) <==> no_bad_bytes(a) && no_bad_bytes(c)) by {
        if no_bad_bytes(j) {
            assert forall|i: int| 0 <= i < a.len() implies #[trigger] a[i] != 0x5cu8 && a[i] != 0x3au8 by {
                assert(j[i] == a[i]);
            }
            assert forall|t: int| 0 <= t < c.len() implies #[trigger] c[t] != 0x5cu8 && c[t] != 0x3au8 by {
                assert(j[la + 1 + t] == c[t]);
            }
        }
        if no_bad_bytes(a) && no_bad_bytes(c) {
            assert forall|i: int| 0 <= i < j.len() implies #[trigger] j[i] != 0x5cu8 && j[i] != 0x3au8 by {
                if i > la {
                    assert(j[la + 1 + (i - la - 1)] == c[i - la - 1]);
                }
            }
        }
    }
    assert(dots_ok(j) <==> dots_ok(a) && dots_ok(c)) by {
        if dots_ok(j) {
            assert forall|i: int|
                0 <= i < a.len() && #[trigger] a[i] == 0x2eu8 && (i == 0 || a[i - 1] == 0x2fu8) implies {
                &&& !(i + 1 == a.len() || a[i + 1] == 0x2fu8)
                &&& !(i + 1 < a.len() && a[i + 1] == 0x2eu8 && (i + 2 == a.len() || a[i + 2]
                    == 0x2fu8))
            } by {
                assert(j[i] == a[i]);
                if i > 0 {
                    assert(j[i - 1] == a[i - 1]);
                }
                if i + 1 < la {
                    assert(j[i + 1] == a[i + 1]);
                }
                if i + 2 < la {
                    assert(j[i + 2] == a[i + 2]);
                }
            }
            assert forall|t: int|
                0 <= t < c.len() && #[trigger] c[t] == 0x2eu8 && (t == 0 || c[t - 1] == 0x2fu8) implies {
                &&& !(t + 1 == c.len() || c[t + 1] == 0x2fu8)
                &&& !(t + 1 < c.len() && c[t + 1] == 0x2eu8 && (t + 2 == c.len() || c[t + 2]
                    == 0x2fu8))
            } by {
                assert(t == 0);
                assert(j[la + 1] == c[0]);
                if 1 < c.len() {
                    assert(j[la + 1 + 1] == c[1]);
                }
                if 2 < c.len() {
                    assert(j[la + 1 + 2] == c[2]);
                }
            }
        }
        if dots_ok(a) && dots_ok(c) {
            assert forall|i: int|
                0 <= i < j.len() && #[trigger] j[i] == 0x2eu8 && (i == 0 || j[i - 1] == 0x2fu8) implies {
                &&& !(i + 1 == j.len() || j[i + 1] == 0x2fu8)
                &&& !(i + 1 < j.len() && j[i + 1] == 0x2eu8 && (i + 2 == j.len() || j[i + 2]
                    == 0x2fu8))
            } by {
                if i < la {
                    assert(a[i] == 0x2eu8);
                    if i > 0 {
                        assert(j[i - 1] == a[i - 1]);
                    }
                    if i + 1 < la {
                        assert(j[i + 1] == a[i + 1]);
                    }
                    if i + 2 < la {
                        assert(j[i + 2] == a[i + 2]);
                    }
                } else {
                    let t = i - la - 1;
                    assert(t >= 0);
                    assert(j[la + 1 + t] == c[t]);
                    if t > 0 {
                        assert(j[la + 1 + (t - 1)] == c[t - 1]);
                    }
                    if t + 1 < c.len() {
                        assert(j[la + 1 + (t + 1)] == c[t + 1]);
                    }
                    if t + 2 < c.len() {
                        assert(j[la + 1 + (t + 2)] == c[t + 2]);
                    }
                }
            }
        }
    }
    assert(no_double_slash(j) <==> no_double_slash(a) && (la > 0 ==> a[la - 1] != 0x2fu8)) by {
        if no_double_slash(j) {
            assert forall|i: int| 0 <= i < a.len() - 1 && #[trigger] a[i] == 0x2fu8 implies a[i + 1]
                != 0x2fu8 by {
                assert(j[i] == a[i]);
                assert(j[i + 1] == a[i + 1]);
            }
            if la > 0 {
                assert(j[la - 1] == a[la - 1]);
            }
        }
        if no_double_slash(a) && (la > 0 ==> a[la - 1] != 0x2fu8) {
            assert forall|i: int| 0 <= i < j.len() - 1 && #[trigger] j[i] == 0x2fu8 implies j[i + 1]
                != 0x2fu8 by {
                if i + 1 < la {
                    assert(j[i] == a[i]);
                    assert(j[i + 1] == a[i + 1]);
                } else if i + 1 == la {
                    assert(j[i] == a[i]);
                } else {
                    assert(j[la + 1 + (i - la)] == c[i - la]);
                }
            }
        }
    }
    assert(no_double_slash(c)) by {
        assert forall|i: int| 0 <= i < c.len() - 1 && #[trigger] c[i] == 0x2fu8 implies c[i + 1]
            != 0x2fu8 by {
        }
    }
    if c.len() > 0 {
        assert(c[0] != 0x2fu8);
        assert(c[c.len() - 1] != 0x2fu8);
        assert(j[j.len() - 1] == c[c.len() - 1]);
    } else {
        assert(j[j.len() - 1] == 0x2fu8);
    }
    if la > 0 {
        assert(j[0] == a[0]);
    }
}

/// Joined components are safe exactly when each component is good.
proof fn lemma_safe_join(cs: Seq<Seq<u8>>)
    requires
        cs.len() >= 1,
        forall|k: int| 0 <= k < cs.len() ==> no_slash(#[trigger] cs[k]),
    ensures
        safe_path_bytes(join_components(cs)) <==> forall|k: int|
            0 <= k < cs.len() ==> component_ok(#[trigger] cs[k]),
    decreases cs.len(),
{
    if cs.len() == 1 {
        lemma_safe_component(cs[0]);
    } else {
        let pre = cs.drop_last();
        assert forall|k: int| 0 <= k < pre.len() implies no_slash(#[trigger] pre[k]) by {
            assert(pre[k] == cs[k]);
        }
        lemma_safe_join(pre);
        assert(cs[cs.len() - 1] == cs.last());
        lemma_safe_append(join_components(pre), cs.last());
        lemma_safe_component(cs.last());
        if forall|k: int| 0 <= k < pre.len() ==> component_ok(#[trigger] pre[k]) {
            if component_ok(cs.last()) {
                assert forall|k: int| 0 <= k < cs.len() implies component_ok(#[trigger] cs[k]) by {
                    if k < pre.len() {
                        assert(pre[k] == cs[k]);
                    }
                }
            }
        }
        if forall|k: int| 0 <= k < cs.len() ==> component_ok(#[trigger] cs[k]) {
            assert forall|k: int| 0 <= k < pre.len() implies component_ok(#[trigger] pre[k]) by {
                assert(pre[k] == cs[k]);
            }
        }
    }
}

/// Which bundle paths are safe: exactly those whose `/`-separated components are
/// each non-empty, neither `.` nor `..`, and free of `\` and `:` (so an empty path,
/// a leading, trailing or doubled `/` are all refused, and a component like
/// `.gitignore` is fine). `b` is the path's UTF-8 bytes; [`safe_path`] reads a path
/// by its bytes.
pub proof fn lemma_safe_paths_are_good_components(b: Seq<u8>)
    ensures
        safe_path_bytes(b) <==> forall|k: int|
            0 <= k < path_components(b).len() ==> component_ok(#[trigger] path_components(b)[k]),
{
    lemma_path_components_join(b);
    lemma_safe_join(path_components(b));
}

} // verus!
