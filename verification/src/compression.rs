//! The compression-format registry: the closed set of supported formats,
//! parsing of the comma-separated format configuration, and in-memory
//! encoding and decoding through the compression libraries, each behind a
//! trusted wrapper whose contract names its output.

use std::io::Read;
use std::io::Write;
use xz2::stream::{Filters, LzmaOptions, MatchFinder, MtStreamBuilder};

use vstd::prelude::*;

use crate::error::Error;
use crate::util::{
    bytes_eq, path_ext, path_ext_spec, split_bytes, split_spec, trim, trim_spec, views_of,
};

verus! {

/// The xz preset the LZMA2 options start from; its tuned fields below
/// override what matters.
pub const XZ_PRESET: u32 = 9;

/// LZMA2 dictionary size: also the decompression memory baseline.
pub const XZ_DICT_SIZE: u32 = 64 * 1024 * 1024;

/// Longest match length LZMA2 will look for: the maximum, for ratio.
pub const XZ_NICE_LEN: u32 = 273;

/// Match-finder search depth; 0 would mean automatic, this is deliberately
/// deep for ratio.
pub const XZ_DEPTH: u32 = 1000;

/// Worker threads for the xz stream; one keeps the stream layout and the
/// memory cost of constrained hosts fixed.
pub const XZ_THREADS: u32 = 1;

/// Zstd compression level: a balance of time and size.
pub const ZSTD_LEVEL: i32 = 19;

/// Upper bound on zstd worker threads; long-distance matching costs memory
/// per worker, so the count is capped to be friendly to small hosts.
pub const ZSTD_MAX_THREADS: u32 = 12;

/// One supported compression format.
#[derive(Debug, Copy, Clone, PartialEq, Eq, Structural)]
pub enum CompressionFormat {
    Gz,
    Xz,
    Zstd,
}

impl CompressionFormat {
    /// The file extension of this format, also its configuration token.
    pub open spec fn extension_spec(self) -> Seq<u8> {
        match self {
            CompressionFormat::Gz => seq![103u8, 122u8],
            CompressionFormat::Xz => seq![120u8, 122u8],
            CompressionFormat::Zstd => seq![122u8, 115u8, 116u8],
        }
    }

    /// Returns the file extension used for this format.
    pub fn extension(&self) -> (r: Vec<u8>)
        ensures
            r@ == self.extension_spec(),
    {
        let mut r: Vec<u8> = Vec::new();
        match self {
            CompressionFormat::Gz => {
                r.push(103u8);
                r.push(122u8);
                assert(r@ =~= seq![103u8, 122u8]);
            }
            CompressionFormat::Xz => {
                r.push(120u8);
                r.push(122u8);
                assert(r@ =~= seq![120u8, 122u8]);
            }
            CompressionFormat::Zstd => {
                r.push(122u8);
                r.push(115u8);
                r.push(116u8);
                assert(r@ =~= seq![122u8, 115u8, 116u8]);
            }
        }
        r
    }

    /// The format a path's extension announces.
    pub open spec fn detect_spec(p: Seq<u8>) -> Option<CompressionFormat> {
        match path_ext_spec(p) {
            Some(e) => {
                if e == CompressionFormat::Gz.extension_spec() {
                    Some(CompressionFormat::Gz)
                } else if e == CompressionFormat::Xz.extension_spec() {
                    Some(CompressionFormat::Xz)
                } else if e == CompressionFormat::Zstd.extension_spec() {
                    Some(CompressionFormat::Zstd)
                } else {
                    None
                }
            }
            None => None,
        }
    }

    /// Recognizes a format from a path's file extension.
    pub fn detect_from_path(path: &Vec<u8>) -> (r: Option<CompressionFormat>)
        ensures
            r == Self::detect_spec(path@),
    {
        match path_ext(path) {
            Some(ext) => {
                if bytes_eq(&ext, &CompressionFormat::Gz.extension()) {
                    Some(CompressionFormat::Gz)
                } else if bytes_eq(&ext, &CompressionFormat::Xz.extension()) {
                    Some(CompressionFormat::Xz)
                } else if bytes_eq(&ext, &CompressionFormat::Zstd.extension()) {
                    Some(CompressionFormat::Zstd)
                } else {
                    None
                }
            }
            None => None,
        }
    }
}

/// What the gzip encoder at the best level produces for the given input; a
/// function of the input bytes alone.
pub uninterp spec fn gz_of(input: Seq<u8>) -> Seq<u8>;

/// What the tuned LZMA2 (xz) encoder produces for the given input and
/// tuning; a function of its arguments alone.
pub uninterp spec fn xz_of(
    input: Seq<u8>,
    preset: u32,
    dict_size: u32,
    nice_len: u32,
    depth: u32,
    threads: u32,
) -> Seq<u8>;

/// What the zstd encoder with long-distance matching produces for the given
/// input, level, and worker count; a function of its arguments alone.
pub uninterp spec fn zstd_of(input: Seq<u8>, level: i32, threads: u32) -> Seq<u8>;

/// Does `output` hold `input` encoded as this library encodes `fmt`?  The
/// zstd worker count follows the machine, so any capped count is allowed.
pub open spec fn encodes(fmt: CompressionFormat, input: Seq<u8>, output: Seq<u8>) -> bool {
    match fmt {
        CompressionFormat::Gz => output == gz_of(input),
        CompressionFormat::Xz => output == xz_of(
            input,
            XZ_PRESET,
            XZ_DICT_SIZE,
            XZ_NICE_LEN,
            XZ_DEPTH,
            XZ_THREADS,
        ),
        CompressionFormat::Zstd => exists|t: u32|
            1 <= t <= ZSTD_MAX_THREADS && output == zstd_of(input, ZSTD_LEVEL, t),
    }
}

/// Relies on flate2's `GzEncoder` with `Compression::best()` writing into a
/// vector: in-memory gzip compression, deterministic for a given input
/// (flate2 writes a zero mtime and a fixed system byte into the gzip
/// header).  The sink is a vector, which never fails, and the pure-Rust
/// deflate backend reports no error for a correctly driven stream, so the
/// call always succeeds.
#[verifier::external_body]
fn gz_compress(data: &Vec<u8>) -> (r: Result<Vec<u8>, Vec<u8>>)
    ensures
        r is Ok,
        r matches Ok(out) ==> out@ == gz_of(data@),
{
    let mut enc = flate2::write::GzEncoder::new(Vec::new(), flate2::Compression::best());
    Write::write_all(&mut enc, data.as_slice()).map_err(|e| e.to_string().into_bytes())?;
    enc.finish().map_err(|e| e.to_string().into_bytes())
}

/// Relies on flate2's `GzDecoder`: gzip decompression inverts gzip
/// compression of any input.
#[verifier::external_body]
fn gz_decompress(data: &Vec<u8>) -> (r: Result<Vec<u8>, Vec<u8>>)
    ensures
        r matches Ok(out) ==> forall|s: Seq<u8>| data@ == gz_of(s) ==> out@ == s,
        r matches Err(e) ==> forall|s: Seq<u8>| data@ != gz_of(s),
{
    let mut dec = flate2::read::GzDecoder::new(data.as_slice());
    let mut out = Vec::new();
    Read::read_to_end(&mut dec, &mut out).map_err(|e| e.to_string().into_bytes())?;
    Ok(out)
}

/// Relies on xz2's `XzEncoder` over an LZMA2 filter chain built from the
/// given preset, dictionary size, nice length, depth, and thread count, with
/// the binary-tree-4 match finder: in-memory xz compression, deterministic
/// for given arguments.
#[verifier::external_body]
fn xz_compress(
    data: &Vec<u8>,
    preset: u32,
    dict_size: u32,
    nice_len: u32,
    depth: u32,
    threads: u32,
) -> (r: Result<Vec<u8>, Vec<u8>>)
    ensures
        r matches Ok(out) ==> out@ == xz_of(data@, preset, dict_size, nice_len, depth, threads),
{
    let mut opts = LzmaOptions::new_preset(preset).map_err(|e| e.to_string().into_bytes())?;
    opts.dict_size(dict_size).match_finder(MatchFinder::BinaryTree4).nice_len(nice_len).depth(depth);
    let mut filters = Filters::new();
    filters.lzma2(&opts);
    let builder = MtStreamBuilder::new().threads(threads).filters(filters).encoder();
    let stream = builder.map_err(|e| e.to_string().into_bytes())?;
    let mut enc = xz2::write::XzEncoder::new_stream(Vec::new(), stream);
    Write::write_all(&mut enc, data.as_slice()).map_err(|e| e.to_string().into_bytes())?;
    enc.finish().map_err(|e| e.to_string().into_bytes())
}

/// Relies on xz2's `XzDecoder`: the xz container is self-describing, so
/// decompression inverts compression whatever the encoder's tuning was.
#[verifier::external_body]
fn xz_decompress(data: &Vec<u8>) -> (r: Result<Vec<u8>, Vec<u8>>)
    ensures
        r matches Ok(out) ==> forall|s: Seq<u8>, preset: u32, dict: u32, nice: u32, depth: u32, threads: u32|
            data@ == xz_of(s, preset, dict, nice, depth, threads) ==> out@ == s,
        r matches Err(e) ==> forall|s: Seq<u8>, preset: u32, dict: u32, nice: u32, depth: u32, threads: u32|
            data@ != xz_of(s, preset, dict, nice, depth, threads),
{
    let mut dec = xz2::read::XzDecoder::new(data.as_slice());
    let mut out = Vec::new();
    Read::read_to_end(&mut dec, &mut out).map_err(|e| e.to_string().into_bytes())?;
    Ok(out)
}

/// Relies on zstd's `Encoder` writing into a vector, with long-distance
/// matching enabled and the given worker count: zstd output is determined by
/// input, level, and worker count.
#[verifier::external_body]
fn zstd_compress(data: &Vec<u8>, level: i32, threads: u32) -> (r: Result<Vec<u8>, Vec<u8>>)
    ensures
        r matches Ok(out) ==> out@ == zstd_of(data@, level, threads),
{
    let mut enc = zstd::stream::Encoder::new(Vec::new(), level).map_err(|e| e.to_string().into_bytes())?;
    enc.long_distance_matching(true).map_err(|e| e.to_string().into_bytes())?;
    enc.multithread(threads).map_err(|e| e.to_string().into_bytes())?;
    Write::write_all(&mut enc, data.as_slice()).map_err(|e| e.to_string().into_bytes())?;
    enc.finish().map_err(|e| e.to_string().into_bytes())
}

/// Relies on zstd's `decode_all`: the zstd frame is self-describing, so
/// decompression inverts compression whatever level and worker count
/// produced it.
#[verifier::external_body]
fn zstd_decompress(data: &Vec<u8>) -> (r: Result<Vec<u8>, Vec<u8>>)
    ensures
        r matches Ok(out) ==> forall|s: Seq<u8>, level: i32, threads: u32|
            data@ == zstd_of(s, level, threads) ==> out@ == s,
        r matches Err(e) ==> forall|s: Seq<u8>, level: i32, threads: u32|
            data@ != zstd_of(s, level, threads),
{
    zstd::stream::decode_all(data.as_slice()).map_err(|e| e.to_string().into_bytes())
}

/// Relies on num_cpus::get, which returns the number of logical CPUs and is
/// documented to return at least 1.
#[verifier::external_body]
fn logical_cpus() -> (r: usize)
    ensures
        1 <= r,
{
    num_cpus::get()
}

/// The zstd worker count for this machine: its logical CPUs, capped.
pub fn zstd_threads() -> (r: u32)
    ensures
        1 <= r <= ZSTD_MAX_THREADS,
{
    let n = logical_cpus();
    if n >= 12 {
        12
    } else {
        n as u32
    }
}

impl CompressionFormat {
    /// Compresses `data` in memory with this format's tuning.  On success
    /// the output is exactly this library's encoding of `data`.  Gzip always
    /// succeeds; the xz and zstd libraries may report a failure, which is
    /// passed on.
    pub fn encode(&self, data: &Vec<u8>) -> (r: Result<Vec<u8>, Error>)
        ensures
            r matches Ok(out) ==> encodes(*self, data@, out@),
            *self == CompressionFormat::Gz ==> r is Ok,
            r matches Err(e) ==> e matches Error::Compression(_),
    {
        match self {
            CompressionFormat::Gz => {
                match gz_compress(data) {
                    Ok(o) => Ok(o),
                    Err(m) => Err(Error::Compression(m)),
                }
            }
            CompressionFormat::Xz => {
                match xz_compress(data, XZ_PRESET, XZ_DICT_SIZE, XZ_NICE_LEN, XZ_DEPTH, XZ_THREADS) {
                    Ok(o) => Ok(o),
                    Err(m) => Err(Error::Compression(m)),
                }
            }
            CompressionFormat::Zstd => {
                let t = zstd_threads();
                match zstd_compress(data, ZSTD_LEVEL, t) {
                    Ok(o) => {
                        assert(1 <= t <= ZSTD_MAX_THREADS && o@ == zstd_of(data@, ZSTD_LEVEL, t));
                        Ok(o)
                    }
                    Err(m) => Err(Error::Compression(m)),
                }
            }
        }
    }

    /// Decompresses `data` in memory.  Whatever this library encoded, the
    /// matching decoder recovers exactly.
    pub fn decode(&self, data: &Vec<u8>) -> (r: Result<Vec<u8>, Error>)
        ensures
            forall|s: Seq<u8>|
                encodes(*self, s, data@) ==> (r matches Ok(out) && out@ == s),
            r matches Err(e) ==> e matches Error::Compression(_),
    {
        match self {
            CompressionFormat::Gz => {
                match gz_decompress(data) {
                    Ok(o) => Ok(o),
                    Err(m) => Err(Error::Compression(m)),
                }
            }
            CompressionFormat::Xz => {
                match xz_decompress(data) {
                    Ok(o) => Ok(o),
                    Err(m) => Err(Error::Compression(m)),
                }
            }
            CompressionFormat::Zstd => {
                match zstd_decompress(data) {
                    Ok(o) => Ok(o),
                    Err(m) => Err(Error::Compression(m)),
                }
            }
        }
    }
}

/// Is this trimmed token one of the known format names?
pub open spec fn known_token(t: Seq<u8>) -> bool {
    ||| t == CompressionFormat::Gz.extension_spec()
    ||| t == CompressionFormat::Xz.extension_spec()
    ||| t == CompressionFormat::Zstd.extension_spec()
}

/// The format a known token names.
pub open spec fn token_format(t: Seq<u8>) -> CompressionFormat {
    if t == CompressionFormat::Gz.extension_spec() {
        CompressionFormat::Gz
    } else if t == CompressionFormat::Xz.extension_spec() {
        CompressionFormat::Xz
    } else {
        CompressionFormat::Zstd
    }
}

/// The trimmed tokens of a comma-separated configuration string.
pub open spec fn tokens_of(s: Seq<u8>) -> Seq<Seq<u8>> {
    split_spec(s, 44).map_values(|t: Seq<u8>| trim_spec(t))
}

/// The earliest position holding an unknown token.
pub open spec fn first_unknown(toks: Seq<Seq<u8>>) -> int
    decreases toks.len(),
{
    if toks.len() == 0 {
        0
    } else if !known_token(toks[0]) {
        0
    } else {
        1 + first_unknown(toks.drop_first())
    }
}

/// First occurrences kept, later duplicates dropped.
pub open spec fn dedup_formats(fs: Seq<CompressionFormat>) -> Seq<CompressionFormat>
    decreases fs.len(),
{
    if fs.len() == 0 {
        fs
    } else {
        let front = dedup_formats(fs.drop_last());
        if front.contains(fs.last()) {
            front
        } else {
            front.push(fs.last())
        }
    }
}

/// The ordered, de-duplicated format set a configuration string denotes,
/// meaningful when every token is known.
pub open spec fn formats_of(s: Seq<u8>) -> Seq<CompressionFormat> {
    dedup_formats(tokens_of(s).map_values(|t: Seq<u8>| token_format(t)))
}

/// Is `f` among the formats of `v`?
fn contains_format(v: &Vec<CompressionFormat>, f: CompressionFormat) -> (r: bool)
    ensures
        r == v@.contains(f),
{
    let mut i: usize = 0;
    while i < v.len()
        invariant
            i <= v@.len(),
            forall|j: int| 0 <= j < i ==> v@[j] != f,
        decreases v@.len() - i,
    {
        if v[i] == f {
            return true;
        }
        i = i + 1;
    }
    false
}

/// The ordered set of formats one run produces, parsed from the
/// configuration string.
#[derive(Debug, Clone)]
pub struct CompressionFormats(Vec<CompressionFormat>);

impl View for CompressionFormats {
    type V = Seq<CompressionFormat>;

    closed spec fn view(&self) -> Seq<CompressionFormat> {
        self.0@
    }
}

impl Default for CompressionFormats {
    /// The default format set: gzip and xz.
    fn default() -> (r: Self)
        ensures
            r@ == seq![CompressionFormat::Gz, CompressionFormat::Xz],
    {
        let mut v: Vec<CompressionFormat> = Vec::new();
        v.push(CompressionFormat::Gz);
        v.push(CompressionFormat::Xz);
        assert(v@ =~= seq![CompressionFormat::Gz, CompressionFormat::Xz]);
        CompressionFormats(v)
    }
}

impl CompressionFormats {
    /// Parses a comma-separated format list, trimming each token.  Succeeds
    /// exactly when every token is a known format name; the result keeps the
    /// first occurrence of each format in order.  On failure the error
    /// carries the first unknown token.
    pub fn try_from(value: &Vec<u8>) -> (r: Result<CompressionFormats, Error>)
        ensures
            r matches Ok(fs) ==> {
                &&& forall|i: int| 0 <= i < tokens_of(value@).len() ==> known_token(
                    #[trigger] tokens_of(value@)[i],
                )
                &&& fs@ == formats_of(value@)
            },
            r matches Err(e) ==> {
                &&& exists|i: int|
                    0 <= i < tokens_of(value@).len() && !known_token(
                        #[trigger] tokens_of(value@)[i],
                    )
                &&& e matches Error::UnknownFormat(t) && t@ == tokens_of(value@)[first_unknown(
                    tokens_of(value@),
                )]
            },
    {
        let toks = split_bytes(value, 44);
        let ghost gtoks = tokens_of(value@);
        assert(gtoks.len() == toks@.len());
        let ghost mapped = gtoks.map_values(|t: Seq<u8>| token_format(t));
        let mut out: Vec<CompressionFormat> = Vec::new();
        let mut i: usize = 0;
        proof {
            assert(mapped.take(0int) =~= Seq::<CompressionFormat>::empty());
        }
        while i < toks.len()
            invariant
                i <= toks@.len(),
                gtoks == tokens_of(value@),
                mapped == gtoks.map_values(|t: Seq<u8>| token_format(t)),
                gtoks.len() == toks@.len(),
                views_of(toks@) == split_spec(value@, 44),
                forall|j: int| 0 <= j < i ==> known_token(#[trigger] gtoks[j]),
                out@ == dedup_formats(mapped.take(i as int)),
            decreases toks@.len() - i,
        {
            let t = trim(&toks[i]);
            proof {
                assert(views_of(toks@)[i as int] == toks@[i as int]@);
                assert(gtoks[i as int] == trim_spec(split_spec(value@, 44)[i as int]));
                assert(t@ == gtoks[i as int]);
            }
            let f: CompressionFormat;
            if bytes_eq(&t, &CompressionFormat::Gz.extension()) {
                f = CompressionFormat::Gz;
            } else if bytes_eq(&t, &CompressionFormat::Xz.extension()) {
                f = CompressionFormat::Xz;
            } else if bytes_eq(&t, &CompressionFormat::Zstd.extension()) {
                f = CompressionFormat::Zstd;
            } else {
                proof {
                    lemma_first_unknown(gtoks, i as int);
                }
                return Err(Error::UnknownFormat(t));
            }
            proof {
                assert(known_token(gtoks[i as int]));
                assert(f == token_format(gtoks[i as int]));
                assert(mapped[i as int] == token_format(gtoks[i as int]));
                assert(mapped.take(i as int + 1).drop_last() =~= mapped.take(i as int));
                assert(mapped.take(i as int + 1).last() == mapped[i as int]);
            }
            if !contains_format(&out, f) {
                out.push(f);
            }
            i = i + 1;
        }
        proof {
            assert(mapped.take(gtoks.len() as int) =~= mapped);
        }
        Ok(CompressionFormats(out))
    }

    /// How many formats were requested.
    pub fn len(&self) -> (r: usize)
        ensures
            r == self@.len(),
    {
        self.0.len()
    }

    /// The format at position `i`.
    pub fn get(&self, i: usize) -> (r: CompressionFormat)
        requires
            i < self@.len(),
        ensures
            r == self@[i as int],
    {
        self.0[i]
    }

    /// The requested formats in order.
    pub fn as_vec(&self) -> (r: &Vec<CompressionFormat>)
        ensures
            r@ == self@,
    {
        &self.0
    }

    /// The comma-joined token list denoting this format set.
    pub open spec fn format_list_spec(fs: Seq<CompressionFormat>) -> Seq<u8>
        decreases fs.len(),
    {
        if fs.len() == 0 {
            Seq::<u8>::empty()
        } else if fs.len() == 1 {
            fs[0].extension_spec()
        } else {
            Self::format_list_spec(fs.drop_last()) + seq![44u8] + fs.last().extension_spec()
        }
    }

    /// Renders the format set as the comma-separated token list that
    /// `try_from` accepts.
    pub fn format_list(&self) -> (r: Vec<u8>)
        ensures
            r@ == Self::format_list_spec(self@),
    {
        let mut r: Vec<u8> = Vec::new();
        let mut i: usize = 0;
        proof {
            assert(self@.take(0int) =~= Seq::<CompressionFormat>::empty());
        }
        while i < self.0.len()
            invariant
                i <= self@.len(),
                r@ == Self::format_list_spec(self@.take(i as int)),
            decreases self@.len() - i,
        {
            if i > 0 {
                r.push(44u8);
            }
            let mut e = self.0[i].extension();
            r.append(&mut e);
            proof {
                assert(self@.take(i as int + 1).drop_last() =~= self@.take(i as int));
                assert(self@.take(i as int + 1).last() == self@[i as int]);
                if i == 0 {
                    assert(r@ =~= Self::format_list_spec(self@.take(1int)));
                } else {
                    assert(r@ =~= Self::format_list_spec(self@.take(i as int)) + seq![44u8] + self@[
                        i as int
                    ].extension_spec());
                }
            }
            i = i + 1;
        }
        proof {
            assert(self@.take(self@.len() as int) =~= self@);
        }
        r
    }
}

/// The first unknown token is at `i` when all before it are known and the
/// one at `i` is not.
proof fn lemma_first_unknown(toks: Seq<Seq<u8>>, i: int)
    requires
        0 <= i < toks.len(),
        forall|j: int| 0 <= j < i ==> known_token(#[trigger] toks[j]),
        !known_token(toks[i]),
    ensures
        first_unknown(toks) == i,
    decreases toks.len(),
{
    if i > 0 {
        lemma_first_unknown(toks.drop_first(), i - 1);
    }
}

} // verus!
