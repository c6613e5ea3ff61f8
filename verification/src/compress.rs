//! Compression of archives and files.
use crate::deb::tar_blocks::describe;
use crate::error::{CDResult, CargoDebError, Cause, CauseView, ErrorView};
use std::io::Write;
use vstd::prelude::*;

verus! {

/// How an archive is compressed.
#[derive(Debug, Clone, Copy, PartialEq, Eq, Structural)]
pub enum CompressType {
    Xz,
    Gzip,
}

impl Default for CompressType {
    fn default() -> (r: Self)
        ensures
            r == CompressType::Xz,
    {
        CompressType::Xz
    }
}

impl CompressType {
    /// The extension of a file that is compressed so.
    pub open spec fn spec_extension(self) -> Seq<char> {
        match self {
            CompressType::Xz => "xz"@,
            CompressType::Gzip => "gz"@,
        }
    }

    /// The program that compresses so.
    pub open spec fn spec_program(self) -> Seq<char> {
        match self {
            CompressType::Xz => "xz"@,
            CompressType::Gzip => "gzip"@,
        }
    }

    pub fn extension(&self) -> (r: &'static str)
        ensures
            r@ == self.spec_extension(),
    {
        match self {
            CompressType::Xz => "xz",
            CompressType::Gzip => "gz",
        }
    }

    pub fn program(&self) -> (r: &'static str)
        ensures
            r@ == self.spec_program(),
    {
        match self {
            CompressType::Xz => "xz",
            CompressType::Gzip => "gzip",
        }
    }
}

/// Compressed data.
#[derive(Debug)]
pub struct Compressed {
    compress_type: CompressType,
    data: Vec<u8>,
}

impl Compressed {
    pub closed spec fn spec_type(self) -> CompressType {
        self.compress_type
    }

    pub closed spec fn spec_data(self) -> Seq<u8> {
        self.data@
    }

    /// Data that has been compressed by other means.
    pub fn new(compress_type: CompressType, data: Vec<u8>) -> (r: Self)
        ensures
            r.spec_type() == compress_type,
            r.spec_data() == data@,
    {
        Compressed { compress_type, data }
    }

    pub fn extension(&self) -> (r: &'static str)
        ensures
            r@ == self.spec_type().spec_extension(),
    {
        self.compress_type.extension()
    }

    /// The compressed bytes.
    pub fn data(&self) -> (r: &Vec<u8>)
        ensures
            r@ == self.spec_data(),
    {
        &self.data
    }
}

// ---------------------------------------------------------------------------
// The `flate2` crate
// ---------------------------------------------------------------------------
/// An encoder of the `flate2` crate that writes a gzip stream to a vector. (`GzEncoder` is generic
/// over a trait that has no specification, which is why a type of this library holds it.)
#[verifier::external_body]
pub struct GzWriter {
    encoder: flate2::write::GzEncoder<Vec<u8>>,
}

/// The compression level of an encoder.
pub uninterp spec fn gz_level(w: GzWriter) -> nat;

/// What an encoder has been given, in order: data, or nothing for a flush.
pub uninterp spec fn gz_steps(w: GzWriter) -> Seq<Option<Seq<u8>>>;

/// The stream that an encoder makes at a level of what it is given.
pub uninterp spec fn gz_stream(level: nat, steps: Seq<Option<Seq<u8>>>) -> Seq<u8>;

/// What `GzDecoder` of the `flate2` crate reads out of a stream: nothing if it is not a whole one.
pub uninterp spec fn gz_decoded(stream: Seq<u8>) -> Option<Seq<u8>>;

/// All the data of the steps.
pub open spec fn steps_data(steps: Seq<Option<Seq<u8>>>) -> Seq<u8>
    decreases steps.len(),
{
    if steps.len() == 0 {
        Seq::empty()
    } else {
        steps_data(steps.drop_last()) + (match steps.last() {
            Some(d) => d,
            None => Seq::empty(),
        })
    }
}

/// A gzip stream of data of this length: it begins with the magic bytes and the method, and its
/// last four bytes are the length (of which only the low 32 bits count), the lowest byte first.
pub open spec fn is_gzip_of(stream: Seq<u8>, len: nat) -> bool {
    let n = stream.len() as int;
    &&& n >= 18
    &&& stream[0] == 0x1f
    &&& stream[1] == 0x8b
    &&& stream[2] == 8
    &&& stream[n - 4] == len % 256
    &&& stream[n - 3] == len / 0x100 % 256
    &&& stream[n - 2] == len / 0x10000 % 256
    &&& stream[n - 1] == len / 0x1000000 % 256
}

/// `GzEncoder::new` gives an encoder that has been given nothing.
#[verifier::external_body]
fn new_gz(level: u32) -> (w: GzWriter)
    requires
        level <= 9,
    ensures
        gz_level(w) == level,
        gz_steps(w) == Seq::<Option<Seq<u8>>>::empty(),
{
    GzWriter {
        encoder: flate2::write::GzEncoder::new(Vec::new(), flate2::Compression::new(level)),
    }
}

/// `write_all` of `GzEncoder` gives it data. An encoder that writes to a vector, and has not been
/// finished, does not fail.
#[verifier::external_body]
fn gz_write(w: &mut GzWriter, data: &[u8]) -> (r: Result<(), std::io::Error>)
    ensures
        r is Ok,
        gz_level(*final(w)) == gz_level(*old(w)),
        gz_steps(*final(w)) == gz_steps(*old(w)).push(Some(data@)),
{
    w.encoder.write_all(data)
}

/// `flush` of `GzEncoder` makes what it has been given readable on its own. An encoder that writes
/// to a vector, and has not been finished, does not fail.
#[verifier::external_body]
fn gz_flush(w: &mut GzWriter) -> (r: Result<(), std::io::Error>)
    ensures
        r is Ok,
        gz_level(*final(w)) == gz_level(*old(w)),
        gz_steps(*final(w)) == gz_steps(*old(w)).push(None),
{
    w.encoder.flush()
}

/// `GzEncoder::finish` gives the stream of all that the encoder has been given: a header of ten
/// bytes, the compressed data, and behind it the checksum and the length of the data. A decoder
/// reads the data back. An encoder that writes to a vector does not fail.
#[verifier::external_body]
fn gz_finish(w: GzWriter) -> (r: Result<Vec<u8>, std::io::Error>)
    ensures
        r is Ok,
        (r->Ok_0)@ == gz_stream(gz_level(w), gz_steps(w)),
        is_gzip_of((r->Ok_0)@, steps_data(gz_steps(w)).len()),
        gz_decoded((r->Ok_0)@) == Some(steps_data(gz_steps(w))),
{
    w.encoder.finish()
}

// ---------------------------------------------------------------------------
// The `xz2` crate
// ---------------------------------------------------------------------------
/// An encoder of the `xz2` crate that writes an xz stream to a vector. (`XzEncoder` is generic over
/// a trait that has no specification, which is why a type of this library holds it.)
#[verifier::external_body]
pub struct XzWriter {
    encoder: xz2::write::XzEncoder<Vec<u8>>,
}

/// The preset of an encoder, and its number of threads.
pub uninterp spec fn xz_settings(w: XzWriter) -> (nat, nat);

/// What an encoder has been given, in order: data, or nothing for a flush.
pub uninterp spec fn xz_steps(w: XzWriter) -> Seq<Option<Seq<u8>>>;

/// The streams that an encoder with a preset and a number of threads may make of what it is given.
/// (The threads share the work: that they always make the same stream is not said.)
pub uninterp spec fn xz_streams(preset: nat, threads: nat, steps: Seq<Option<Seq<u8>>>) -> Set<
    Seq<u8>,
>;

/// What `XzDecoder` of the `xz2` crate reads out of a stream: nothing if it is not a whole one.
pub uninterp spec fn xz_decoded(stream: Seq<u8>) -> Option<Seq<u8>>;

/// An error of the `xz2` crate.
#[verifier::external_type_specification]
#[verifier::external_body]
pub struct ExXzError(xz2::stream::Error);

/// `num_cpus::get` gives the number of processors.
#[verifier::external_body]
fn processors() -> usize {
    num_cpus::get()
}

/// `MtStreamBuilder::encoder` gives an encoder with a preset and a number of threads, which has
/// been given nothing.
#[verifier::external_body]
fn new_xz(preset: u32, threads: u32) -> (r: Result<XzWriter, xz2::stream::Error>)
    requires
        preset <= 9,
    ensures
        r is Ok ==> xz_settings(r->Ok_0) == (preset as nat, threads as nat),
        r is Ok ==> xz_steps(r->Ok_0) == Seq::<Option<Seq<u8>>>::empty(),
{
    let stream = xz2::stream::MtStreamBuilder::new().threads(threads).preset(preset).encoder()?;
    Ok(XzWriter { encoder: xz2::write::XzEncoder::new_stream(Vec::new(), stream) })
}

/// `write_all` of `XzEncoder` gives it data. Nothing is said of an encoder where that fails.
#[verifier::external_body]
fn xz_write(w: &mut XzWriter, data: &[u8]) -> (r: Result<(), std::io::Error>)
    ensures
        r is Ok ==> xz_settings(*final(w)) == xz_settings(*old(w)),
        r is Ok ==> xz_steps(*final(w)) == xz_steps(*old(w)).push(Some(data@)),
{
    w.encoder.write_all(data)
}

/// `flush` of `XzEncoder` ends a block of the stream.
#[verifier::external_body]
fn xz_flush(w: &mut XzWriter) -> (r: Result<(), std::io::Error>)
    ensures
        r is Ok ==> xz_settings(*final(w)) == xz_settings(*old(w)),
        r is Ok ==> xz_steps(*final(w)) == xz_steps(*old(w)).push(None),
{
    w.encoder.flush()
}

/// `XzEncoder::finish` gives a stream of all that the encoder has been given, out of which a
/// decoder reads it back. It may fail for want of memory or threads.
#[verifier::external_body]
fn xz_finish(w: XzWriter) -> (r: Result<Vec<u8>, std::io::Error>)
    ensures
        r is Ok ==> xz_streams(xz_settings(w).0, xz_settings(w).1, xz_steps(w)).contains(
            (r->Ok_0)@,
        ),
        r is Ok ==> xz_decoded((r->Ok_0)@) == Some(steps_data(xz_steps(w))),
{
    w.encoder.finish()
}

/// The name of an error of the `xz2` crate.
#[verifier::external_body]
fn xz_error_text(e: &xz2::stream::Error) -> String {
    format!("{e:?}")
}

/// An error of input or output, given its text. Nothing lies behind it.
fn io_error(message: String) -> (r: CargoDebError)
    ensures
        r.deep_view() == ErrorView::Io(CauseView { message: message@, sources: Seq::empty() }),
{
    let sources: Vec<String> = Vec::new();
    assert(sources.deep_view() =~= Seq::<Seq<char>>::empty());
    CargoDebError::Io(Cause { message, sources })
}

// ---------------------------------------------------------------------------
// Compressors
// ---------------------------------------------------------------------------
/// What compresses within this process.
pub enum Writer {
    Xz(XzWriter),
    Gz(GzWriter),
}

/// Compresses what is written to it, and counts it.
pub struct Compressor {
    pub writer: Writer,
    pub uncompressed_size: usize,
}

/// A compressor: one within this process, or another program with an argument for its level.
pub enum Selected {
    Native(Compressor),
    System { compress_type: CompressType, level: &'static str },
}

impl Compressor {
    pub open spec fn spec_writer(self) -> Writer {
        self.writer
    }

    /// What the compressor makes.
    pub open spec fn spec_type(self) -> CompressType {
        match self.spec_writer() {
            Writer::Xz(_) => CompressType::Xz,
            Writer::Gz(_) => CompressType::Gzip,
        }
    }

    /// A compressor at this level that has been given these steps. (Only one for xz has threads.)
    pub open spec fn holds(self, level: nat, threads: nat, steps: Seq<Option<Seq<u8>>>) -> bool {
        match self.spec_writer() {
            Writer::Xz(w) => xz_settings(w) == (level, threads) && xz_steps(w) == steps,
            Writer::Gz(w) => gz_level(w) == level && gz_steps(w) == steps,
        }
    }

    /// Gives the compressor data.
    pub fn write_all(&mut self, buf: &[u8]) -> (r: CDResult<()>)
        requires
            old(self).uncompressed_size + buf@.len() <= usize::MAX,
        ensures
            r is Ok ==> final(self).uncompressed_size == old(self).uncompressed_size + buf@.len(),
            r is Ok ==> final(self).spec_type() == old(self).spec_type(),
            r is Ok ==> forall|level: nat, threads: nat, steps: Seq<Option<Seq<u8>>>| #[trigger]
                old(self).holds(level, threads, steps) ==> final(self).holds(
                    level,
                    threads,
                    steps.push(Some(buf@)),
                ),
            r is Err ==> old(self).spec_type() == CompressType::Xz && (r->Err_0).deep_view() is Io,
    {
        let r = match &mut self.writer {
            Writer::Xz(w) => xz_write(w, buf),
            Writer::Gz(w) => gz_write(w, buf),
        };
        match r {
            Ok(()) => {
                self.uncompressed_size = self.uncompressed_size + buf.len();
                Ok(())
            },
            Err(e) => Err(io_error(describe(&e))),
        }
    }

    /// Makes what the compressor has been given readable on its own.
    pub fn flush(&mut self) -> (r: CDResult<()>)
        ensures
            r is Ok ==> final(self).uncompressed_size == old(self).uncompressed_size,
            r is Ok ==> final(self).spec_type() == old(self).spec_type(),
            r is Ok ==> forall|level: nat, threads: nat, steps: Seq<Option<Seq<u8>>>| #[trigger]
                old(self).holds(level, threads, steps) ==> final(self).holds(
                    level,
                    threads,
                    steps.push(None),
                ),
            r is Err ==> old(self).spec_type() == CompressType::Xz && (r->Err_0).deep_view() is Io,
    {
        let r = match &mut self.writer {
            Writer::Xz(w) => xz_flush(w),
            Writer::Gz(w) => gz_flush(w),
        };
        match r {
            Ok(()) => Ok(()),
            Err(e) => Err(io_error(describe(&e))),
        }
    }

    /// The compressed data.
    pub fn finish(self) -> (r: CDResult<Compressed>)
        ensures
            r is Ok ==> (r->Ok_0).spec_type() == self.spec_type(),
            r is Ok ==> forall|level: nat, threads: nat, steps: Seq<Option<Seq<u8>>>| #[trigger]
                self.holds(level, threads, steps) ==> is_made(r->Ok_0, level, threads, steps),
            r is Err ==> self.spec_type() == CompressType::Xz && (r->Err_0).deep_view() is Io,
    {
        let (compress_type, r) = match self.writer {
            Writer::Xz(w) => (CompressType::Xz, xz_finish(w)),
            Writer::Gz(w) => (CompressType::Gzip, gz_finish(w)),
        };
        match r {
            Ok(data) => Ok(Compressed { compress_type, data }),
            Err(e) => Err(io_error(describe(&e))),
        }
    }
}

/// What is read out of compressed data: nothing if it is not whole.
pub open spec fn decoded(c: Compressed) -> Option<Seq<u8>> {
    match c.spec_type() {
        CompressType::Xz => xz_decoded(c.spec_data()),
        CompressType::Gzip => gz_decoded(c.spec_data()),
    }
}

/// What a compressor at this level makes of these steps: a stream of its type, out of which all the
/// data of the steps is read.
pub open spec fn is_made(
    c: Compressed,
    level: nat,
    threads: nat,
    steps: Seq<Option<Seq<u8>>>,
) -> bool {
    &&& match c.spec_type() {
        CompressType::Xz => xz_streams(level, threads, steps).contains(c.spec_data()),
        CompressType::Gzip => {
            &&& c.spec_data() == gz_stream(level, steps)
            &&& is_gzip_of(c.spec_data(), steps_data(steps).len())
        },
    }
    &&& decoded(c) == Some(steps_data(steps))
}

/// The level at which this process compresses.
pub open spec fn native_level(fast: bool, compress_type: CompressType) -> nat {
    if fast {
        1
    } else {
        match compress_type {
            CompressType::Xz => 6,
            CompressType::Gzip => 9,
        }
    }
}

/// How archives are compressed.
#[derive(Debug, Copy, Clone)]
pub struct CompressConfig {
    /// Use faster compression, which makes a larger deb file
    pub fast: bool,
    pub compress_type: CompressType,
    /// Use the corresponding command-line tool for compression
    pub compress_system: bool,
    /// Use worse compression, but reduce differences between versions of packages
    pub rsyncable: bool,
}

/// What the compressor of this process makes of data with a flush at each of the places, with some
/// number of threads; the data is read out of it.
pub open spec fn is_compressed(
    c: Compressed,
    config: CompressConfig,
    data: Seq<u8>,
    points: Seq<usize>,
) -> bool {
    &&& c.spec_type() == config.compress_type
    &&& exists|threads: nat| #[trigger]
        is_made(
            c,
            native_level(config.fast, config.compress_type),
            threads,
            steps_at(data, points),
        )
    &&& decoded(c) == Some(data)
}

/// A compressor of this process for a type that has been given nothing.
pub open spec fn is_new(c: Compressor, fast: bool, compress_type: CompressType) -> bool {
    &&& c.uncompressed_size == 0
    &&& c.spec_type() == compress_type
    &&& exists|threads: nat| #[trigger]
        c.holds(native_level(fast, compress_type), threads, Seq::empty())
}

/// The compressor of this process for a type, which for xz uses as many threads as there are
/// processors.
pub fn native_compressor(fast: bool, compress_type: CompressType) -> (r: CDResult<Compressor>)
    ensures
        match r {
            Ok(c) => is_new(c, fast, compress_type),
            Err(e) => compress_type == CompressType::Xz && e.deep_view() is LzmaCompressionError,
        },
{
    match compress_type {
        CompressType::Xz => {
            // Compression level 6 is a good trade off between size and [ridiculously] long compression time
            let preset: u32 = if fast {
                1
            } else {
                6
            };
            let threads = processors();
            let threads: u32 = #[verifier::truncate]
            (threads as u32);
            match new_xz(preset, threads) {
                Ok(w) => {
                    let c = Compressor { writer: Writer::Xz(w), uncompressed_size: 0 };
                    assert(c.holds(native_level(fast, compress_type), threads as nat, Seq::empty()));
                    Ok(c)
                },
                Err(e) => Err(CargoDebError::LzmaCompressionError(xz_error_text(&e))),
            }
        },
        CompressType::Gzip => {
            let w = new_gz(
                if fast {
                    1
                } else {
                    9
                },
            );
            let c = Compressor { writer: Writer::Gz(w), uncompressed_size: 0 };
            assert(c.holds(native_level(fast, compress_type), 0, Seq::empty()));
            Ok(c)
        },
    }
}

/// The argument for the level of another program.
pub open spec fn system_level(fast: bool) -> Seq<char> {
    if fast {
        "-1"@
    } else {
        "-6"@
    }
}

/// The compressor for a type: another program if that is wanted, else one of this process.
pub fn select_compressor(fast: bool, compress_type: CompressType, use_system: bool) -> (r: CDResult<
    Selected,
>)
    ensures
        use_system ==> (r matches Ok(Selected::System { compress_type: t, level }) && t
            == compress_type && level@ == system_level(fast)),
        !use_system ==> match r {
            Ok(s) => s matches Selected::Native(c) && is_new(c, fast, compress_type),
            Err(e) => compress_type == CompressType::Xz && e.deep_view() is LzmaCompressionError,
        },
{
    if use_system {
        return Ok(
            Selected::System {
                compress_type,
                level: if fast {
                    "-1"
                } else {
                    "-6"
                },
            },
        );
    }
    match native_compressor(fast, compress_type) {
        Ok(c) => Ok(Selected::Native(c)),
        Err(e) => Err(e),
    }
}

/// The steps that give a compressor data with a flush at each of the places.
pub open spec fn steps_at(data: Seq<u8>, points: Seq<usize>) -> Seq<Option<Seq<u8>>>
    decreases points.len(),
{
    if points.len() == 0 {
        seq![Some(data)]
    } else {
        steps_at(data.take(points.last() as int), points.drop_last()).push(None).push(
            Some(data.skip(points.last() as int)),
        )
    }
}

/// The places are in order, and within the data.
pub open spec fn are_points(points: Seq<usize>, len: nat) -> bool {
    &&& forall|i: int, j: int| 0 <= i <= j < points.len() ==> points[i] <= points[j]
    &&& forall|i: int| 0 <= i < points.len() ==> #[trigger] points[i] <= len
}

/// Compresses data with a flush at each of the places.
pub fn compress_at(compressor: Compressor, data: &Vec<u8>, points: &Vec<usize>) -> (r: CDResult<
    Compressed,
>)
    requires
        compressor.uncompressed_size == 0,
        are_points(points@, data@.len()),
    ensures
        r is Ok ==> (r->Ok_0).spec_type() == compressor.spec_type(),
        r is Ok ==> forall|level: nat, threads: nat| #[trigger]
            compressor.holds(level, threads, Seq::empty()) ==> {
                &&& is_made(r->Ok_0, level, threads, steps_at(data@, points@))
                &&& decoded(r->Ok_0) == Some(data@)
            },
        r is Err ==> compressor.spec_type() == CompressType::Xz && (r->Err_0).deep_view() is Io,
{
    let mut c = compressor;
    let n: usize = data.len();
    let mut from: usize = 0;
    let mut i: usize = 0;
    let ghost mut steps: Seq<Option<Seq<u8>>> = Seq::empty();
    proof {
        assert(points@.take(0) =~= Seq::<usize>::empty());
        assert(data@.subrange(0, 0) =~= Seq::<u8>::empty());
    }
    while i < points.len()
        invariant
            i <= points.len(),
            n == data@.len(),
            from <= n,
            are_points(points@, data@.len()),
            i > 0 ==> from == points@[i - 1],
            i == 0 ==> from == 0,
            c.uncompressed_size == from,
            c.spec_type() == compressor.spec_type(),
            i == 0 ==> steps == Seq::<Option<Seq<u8>>>::empty(),
            i > 0 ==> steps == steps_at(data@.take(from as int), points@.take(i - 1)).push(None),
            forall|level: nat, threads: nat| #[trigger]
                compressor.holds(level, threads, Seq::empty()) ==> c.holds(level, threads, steps),
        decreases points.len() - i,
    {
        let to: usize = points[i];
        assert(from <= to);
        let part = vstd::slice::slice_subrange(data.as_slice(), from, to);
        let ghost pv = part@;
        c.write_all(part)?;
        c.flush()?;
        proof {
            lemma_steps_part(data@, points@, i as int, from as int);
            steps = steps.push(Some(pv)).push(None);
        }
        from = to;
        i += 1;
    }
    let part = vstd::slice::slice_subrange(data.as_slice(), from, n);
    let ghost pv = part@;
    c.write_all(part)?;
    proof {
        steps = steps.push(Some(pv));
        assert(points@.take(points.len() as int) =~= points@);
        assert(data@.take(n as int) =~= data@);
        if points.len() == 0 {
            assert(pv =~= data@);
            assert(steps =~= steps_at(data@, points@));
        } else {
            assert(points@.drop_last() =~= points@.take(points.len() - 1));
            assert(pv =~= data@.skip(from as int));
            assert(steps =~= steps_at(data@, points@));
        }
        lemma_steps_data(data@, points@);
    }
    c.finish()
}

proof fn lemma_steps_part(data: Seq<u8>, points: Seq<usize>, i: int, from: int)
    requires
        are_points(points, data.len()),
        0 <= i < points.len(),
        from == (if i > 0 {
            points[i - 1] as int
        } else {
            0
        }),
    ensures
        ({
            let to = points[i] as int;
            let before: Seq<Option<Seq<u8>>> = if i > 0 {
                steps_at(data.take(from), points.take(i - 1)).push(None)
            } else {
                Seq::empty()
            };
            steps_at(data.take(to), points.take(i)) == before.push(Some(data.subrange(from, to)))
        }),
{
    let to = points[i] as int;
    if i > 0 {
        assert(points.take(i).drop_last() =~= points.take(i - 1));
        assert(points.take(i).last() == points[i - 1]);
        assert(points[i - 1] <= points[i]);
        assert(data.take(to).take(from) =~= data.take(from));
        assert(data.take(to).skip(from) =~= data.subrange(from, to));
    } else {
        assert(points.take(0) =~= Seq::<usize>::empty());
        assert(data.subrange(0, to) =~= data.take(to));
        assert(steps_at(data.take(to), points.take(0)) =~= Seq::empty().push(
            Some(data.subrange(0, to)),
        ));
    }
}

/// The flushes take no data away.
pub proof fn lemma_steps_data(data: Seq<u8>, points: Seq<usize>)
    requires
        are_points(points, data.len()),
    ensures
        steps_data(steps_at(data, points)) == data,
    decreases points.len(),
{
    reveal_with_fuel(steps_data, 3);
    if points.len() == 0 {
        let s = seq![Some(data)];
        assert(s.drop_last() =~= Seq::<Option<Seq<u8>>>::empty());
        assert(steps_data(s) =~= data);
    } else {
        let p = points.last() as int;
        assert(points[points.len() - 1] <= data.len());
        assert forall|i: int| 0 <= i < points.drop_last().len() implies #[trigger]
            points.drop_last()[i] <= data.take(p).len() by {
            assert(points[i] <= points[points.len() - 1]);
        }
        lemma_steps_data(data.take(p), points.drop_last());
        let before = steps_at(data.take(p), points.drop_last());
        let s = before.push(None).push(Some(data.skip(p)));
        assert(s.drop_last() =~= before.push(None));
        assert(s.drop_last().drop_last() =~= before);
        assert(steps_data(before.push(None)) =~= data.take(p));
        assert(steps_data(s) =~= data.take(p) + data.skip(p));
        assert(data.take(p) + data.skip(p) =~= data);
    }
}

/// A file compressed with gzip as well as it can be.
pub fn gzipped(content: &[u8]) -> (r: CDResult<Vec<u8>>)
    ensures
        r is Ok,
        (r->Ok_0)@ == gz_stream(9, seq![Some(content@)]),
        is_gzip_of((r->Ok_0)@, content@.len()),
        gz_decoded((r->Ok_0)@) == Some(content@),
{
    let mut w = new_gz(9);
    match gz_write(&mut w, content) {
        Ok(()) => {},
        Err(e) => {
            return Err(io_error(describe(&e)));
        },
    }
    proof {
        reveal_with_fuel(steps_data, 2);
        let steps = Seq::<Option<Seq<u8>>>::empty().push(Some(content@));
        assert(steps =~= seq![Some(content@)]);
        assert(steps.drop_last() =~= Seq::<Option<Seq<u8>>>::empty());
        assert(steps_data(steps) =~= content@);
    }
    match gz_finish(w) {
        Ok(data) => Ok(data),
        Err(e) => Err(io_error(describe(&e))),
    }
}

} // verus!
