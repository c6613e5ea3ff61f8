//! Writing a package.
use crate::compress::{compress_at, decoded, is_compressed, native_compressor, system_level, CompressConfig, CompressType, Compressed};
use crate::config::control::size_fits;
use crate::config::generated::unit_list;
use crate::config::{BuildEnvironment, PackageConfig};
use crate::deb::archive::{archive_bytes, format_member, lemma_short_name, members_bytes, tarball_member, DebArchive};
use crate::deb::archiving::{is_archived, OnDisk};
use crate::deb::control::{control_archive, Built, ControlArchiveBuilder, ControlFiles};
use crate::deb::links::is_link_place;
use crate::deb::members::{archive_start, is_long};
use crate::deb::reading::{self, law_archive_is_read_back, read_archive};
use crate::deb::tar_blocks::zeros;
use crate::deb::tarball::{entries_bytes, Archived, Entry, Tarball};
use crate::deb::unpacking::{self, law_members_are_read_back, read_members, seen};
use crate::error::{CDResult, CargoDebError, ErrorView};
use crate::listener::{say, Message, MessageView};
use crate::paths::parent;
use crate::text::{cat3, decimal, decimal_of};
use vstd::prelude::*;
use vstd::string::StringExecFns;
use vstd::utf8::encode_utf8;

verus! {

/// What is on disk of a package.
pub struct PackageContent {
    /// What goes into the archive of control files.
    pub control: ControlFiles,
    /// Its files, in their order.
    pub files: Vec<OnDisk>,
}

/// The two archives of a package, before they are compressed.
pub struct Archives {
    pub control: Vec<u8>,
    pub data: Archived,
}

/// A package that has been written.
pub enum Written {
    /// Where it goes, and its content.
    Package(String, Vec<u8>),
    /// Archives that another program is to compress first, with an argument for its level.
    ToCompress { archives: Archives, compress_type: CompressType, level: &'static str },
}

/// What has to be known of a package: the sizes and contents of all its files (of which the sum of
/// the sizes fits into a number), six maintainer scripts, those that pieces go into for each entry on
/// units, and no link that leads to the root.
pub open spec fn is_known(package_deb: PackageConfig, content: PackageContent) -> bool {
    let assets = package_deb.assets.resolved@;
    &&& content.control.sizes@.len() == assets.len()
    &&& size_fits(package_deb.assets.resolved.deep_view(), content.control.sizes@)
    &&& content.control.scripts@.len() == 6
    &&& content.control.units@.len() == unit_list(package_deb).len()
    &&& content.files@.len() == assets.len()
    &&& forall|i: int|
        0 <= i < assets.len() && ((#[trigger] assets[i]).source is Symlink) ==> is_link_place(
            assets[i].c.target_path@,
        )
}

/// The archive of control files.
#[verifier::opaque]
pub open spec fn control_run(
    config: BuildEnvironment,
    package_deb: PackageConfig,
    files: ControlFiles,
    before: Seq<MessageView>,
) -> Built {
    control_archive(
        Built { entries: Seq::empty(), messages: before, error: None },
        config,
        package_deb,
        files,
    )
}

/// The bytes of an archive.
pub open spec fn tar_bytes(entries: Seq<Entry>, time: u64) -> Seq<u8> {
    entries_bytes(entries, time) + zeros(1024)
}

/// The archive of the files of a package.
pub open spec fn is_data_run(
    r: CDResult<Archived>,
    package_deb: PackageConfig,
    files: Seq<OnDisk>,
    rsyncable: bool,
    base_dir: Seq<char>,
    before: Seq<MessageView>,
    said: Seq<MessageView>,
) -> bool {
    is_archived(
        r,
        Seq::empty(),
        package_deb.default_timestamp,
        rsyncable,
        package_deb.assets.resolved.deep_view(),
        files,
        base_dir,
        before,
        said,
    )
}

fn control_tar(
    config: &BuildEnvironment,
    package_deb: &PackageConfig,
    content: &PackageContent,
    log: &mut Vec<Message>,
) -> (r: CDResult<Vec<u8>>)
    requires
        is_known(*package_deb, *content),
    ensures
        ({
            let b = control_run(*config, *package_deb, content.control, old(log).deep_view());
            &&& final(log).deep_view() == b.messages
            &&& match r {
                Ok(tar) => b.error is None && tar@ == tar_bytes(
                    b.entries,
                    package_deb.default_timestamp,
                ),
                Err(e) => b.error == Some(e.deep_view()),
            }
        }),
{
    proof {
        reveal(control_run);
    }
    // The control archive is the metadata for the package manager
    let mut control_builder = ControlArchiveBuilder::new(
        Vec::new(),
        package_deb.default_timestamp,
    );
    match control_builder.generate_archive(config, package_deb, &content.control, log) {
        Ok(()) => {},
        Err(e) => {
            return Err(e);
        },
    }
    let tar = control_builder.finish()?;
    proof {
        let b = control_run(*config, *package_deb, content.control, old(log).deep_view());
        assert(tar@ =~= tar_bytes(b.entries, package_deb.default_timestamp));
    }
    Ok(tar)
}

fn data_tar(
    package_deb: &PackageConfig,
    files: &Vec<OnDisk>,
    rsyncable: bool,
    base_dir: &str,
    log: &mut Vec<Message>,
) -> (r: CDResult<Archived>)
    requires
        files@.len() == package_deb.assets.resolved@.len(),
        forall|i: int|
            0 <= i < package_deb.assets.resolved@.len() && (
            (#[trigger] package_deb.assets.resolved@[i]).source is Symlink) ==> is_link_place(
                package_deb.assets.resolved@[i].c.target_path@,
            ),
    ensures
        is_data_run(
            r,
            *package_deb,
            files@,
            rsyncable,
            base_dir@,
            old(log).deep_view(),
            final(log).deep_view(),
        ),
{
    // Initialize the contents of the data archive (files that go into the filesystem).
    let archive = Tarball::new(Vec::new(), package_deb.default_timestamp);
    archive.archive_files(&package_deb.assets.resolved, files, rsyncable, base_dir, log)
}

/// The two archives of a package. Both are tried even if one fails.
pub fn make_archives(
    config: &BuildEnvironment,
    package_deb: &PackageConfig,
    content: &PackageContent,
    rsyncable: bool,
    base_dir: &str,
    log: &mut Vec<Message>,
) -> (r: CDResult<Archives>)
    requires
        is_known(*package_deb, *content),
    ensures
        ({
            let b = control_run(*config, *package_deb, content.control, old(log).deep_view());
            exists|d: CDResult<Archived>|
                {
                    &&& #[trigger] is_data_run(
                        d,
                        *package_deb,
                        content.files@,
                        rsyncable,
                        base_dir@,
                        b.messages,
                        final(log).deep_view(),
                    )
                    &&& match r {
                        Ok(a) => {
                            &&& b.error is None && d is Ok && a.data == d->Ok_0
                            &&& a.control@ == tar_bytes(b.entries, package_deb.default_timestamp)
                        },
                        Err(e) => if b.error is Some {
                            b.error == Some(e.deep_view())
                        } else {
                            d == Err::<Archived, CargoDebError>(e)
                        },
                    }
                }
        }),
{
    let control = control_tar(config, package_deb, content, log);
    let data = data_tar(package_deb, &content.files, rsyncable, base_dir, log);
    let ghost d = data;
    let control = match control {
        Ok(c) => c,
        Err(e) => {
            return Err(e);
        },
    };
    match data {
        Ok(data) => Ok(Archives { control, data }),
        Err(e) => Err(e),
    }
}

// ---------------------------------------------------------------------------
// The package file
// ---------------------------------------------------------------------------
/// What is said of the sizes.
pub open spec fn size_message(original_data: nat, control: nat, data: nat) -> MessageView {
    let compressed = (data + control) as int;
    let original = (original_data + control) as int;  // doesn't track control size
    let saved = if compressed <= original {
        original - compressed
    } else {
        0
    };
    MessageView::Progress(
        "Compressed"@,
        decimal(original_data / 1000) + "KB to "@ + decimal((compressed / 1000) as nat)
            + "KB (by "@ + decimal((saved * 100 / original) as nat) + "%)"@,
    )
}

fn say_sizes(original_data: usize, control: usize, data: usize, log: &mut Vec<Message>)
    requires
        original_data + control > 0,
    ensures
        final(log).deep_view() == old(log).deep_view().push(
            size_message(original_data as nat, control as nat, data as nat),
        ),
{
    let compressed: u128 = data as u128 + control as u128;
    let original: u128 = original_data as u128 + control as u128;
    let saved: u128 = if compressed <= original {
        original - compressed
    } else {
        0
    };
    assert(0 <= saved * 100 / original as int <= 100) by (nonlinear_arith)
        requires
            0 <= saved <= original,
            original > 0,
    ;
    let percent: u128 = saved * 100 / original;
    let kb = decimal_of(original_data as u64 / 1000);
    let compressed_kb = decimal_of((compressed / 1000) as u64);
    let percent = decimal_of(percent as u64);
    let mut text = cat3(kb.as_str(), "KB to ", compressed_kb.as_str());
    text.append("KB (by ");
    text.append(percent.as_str());
    text.append("%)");
    say(log, Message::Progress("Compressed".to_owned(), text));
}

/// The members of a package.
pub open spec fn package_members(time: u64, control: Compressed, data: Compressed) -> Seq<
    crate::deb::archive::Member,
> {
    seq![
        format_member(time),
        tarball_member("control.tar."@, control, time),
        tarball_member("data.tar."@, data, time),
    ]
}

/// Puts the compressed archives together to a package, given the size of the files of the package
/// before.
pub fn finish_deb(
    deb_output_path: String,
    package_deb: &PackageConfig,
    control: Compressed,
    data: Compressed,
    original_data_size: usize,
    log: &mut Vec<Message>,
) -> (r: CDResult<(String, Vec<u8>)>)
    requires
        original_data_size + control.spec_data().len() > 0,
    ensures
        if parent(deb_output_path@) is None {
            &&& r is Err && r->Err_0.deep_view() == ErrorView::Str("invalid dir"@)
            &&& final(log).deep_view() == old(log).deep_view()
        } else {
            &&& r is Ok && (r->Ok_0).0@ == deb_output_path@
            &&& (r->Ok_0).1@ == archive_bytes(
                package_members(package_deb.default_timestamp, control, data),
            )
            &&& final(log).deep_view() == old(log).deep_view().push(
                size_message(
                    original_data_size as nat,
                    control.spec_data().len(),
                    data.spec_data().len(),
                ),
            )
        },
{
    let time = package_deb.default_timestamp;
    let mut deb_contents = DebArchive::new(deb_output_path, time)?;
    let ghost (c, d) = (control, data);
    let control_size = control.data().len();
    deb_contents.add_control(control)?;
    say_sizes(original_data_size, control_size, data.data().len(), log);
    deb_contents.add_data(data)?;
    assert(deb_contents.members() =~= package_members(time, c, d));
    deb_contents.finish()
}

/// A package with its archive of control files; or why there is none.
pub open spec fn is_control_part(
    r: CDResult<(DebArchive, usize)>,
    config: BuildEnvironment,
    path: Seq<char>,
    package_deb: PackageConfig,
    files: ControlFiles,
    compress: CompressConfig,
    before: Seq<MessageView>,
    said: Seq<MessageView>,
) -> bool {
    let b = control_run(config, package_deb, files, before);
    let time = package_deb.default_timestamp;
    match r {
        Ok((deb, size)) => {
            &&& b.error is None && said == b.messages
            &&& parent(path) is Some
            &&& deb.wf() && deb.out_path() == path && deb.time() == time
            &&& exists|c: Compressed|
                {
                    &&& #[trigger] is_compressed(
                        c,
                        compress,
                        tar_bytes(b.entries, time),
                        Seq::empty(),
                    )
                    &&& deb.members() == seq![
                        format_member(time),
                        tarball_member("control.tar."@, c, time),
                    ]
                    &&& size == c.spec_data().len()
                }
        },
        Err(e) => {
            ||| {
                // there is no compressor
                &&& e.deep_view() is LzmaCompressionError
                &&& compress.compress_type == CompressType::Xz
                &&& said == before
            }
            ||| {
                &&& said == b.messages
                &&& if b.error is Some {
                    b.error == Some(e.deep_view())
                } else {
                    // compressing fails, or the package cannot be put there
                    ||| compress.compress_type == CompressType::Xz && e.deep_view() is Io
                    ||| parent(path) is None && e.deep_view() == ErrorView::Str("invalid dir"@)
                }
            }
        },
    }
}

fn control_part(
    config: &BuildEnvironment,
    deb_output_path: String,
    package_deb: &PackageConfig,
    content: &PackageContent,
    compress: CompressConfig,
    log: &mut Vec<Message>,
) -> (r: CDResult<(DebArchive, usize)>)
    requires
        is_known(*package_deb, *content),
    ensures
        is_control_part(
            r,
            *config,
            deb_output_path@,
            *package_deb,
            content.control,
            compress,
            old(log).deep_view(),
            final(log).deep_view(),
        ),
{
    let compressor = native_compressor(compress.fast, compress.compress_type)?;
    let tar = control_tar(config, package_deb, content, log)?;
    let no_points: Vec<usize> = Vec::new();
    let control = compress_at(compressor, &tar, &no_points)?;
    let ghost c = control;
    let size = control.data().len();
    let ghost time = package_deb.default_timestamp;
    proof {
        let b = control_run(*config, *package_deb, content.control, old(log).deep_view());
        assert(is_compressed(c, compress, tar_bytes(b.entries, time), Seq::empty()));
    }
    let mut deb_contents = DebArchive::new(deb_output_path, package_deb.default_timestamp)?;
    deb_contents.add_control(control)?;
    assert(deb_contents.members() =~= seq![
        format_member(time),
        tarball_member("control.tar."@, c, time),
    ]);
    Ok((deb_contents, size))
}

/// The compressed archive of the files of a package, and its size before; or why there is none.
pub open spec fn is_data_part(
    r: CDResult<(Compressed, usize)>,
    package_deb: PackageConfig,
    files: Seq<OnDisk>,
    compress: CompressConfig,
    base_dir: Seq<char>,
    before: Seq<MessageView>,
    said: Seq<MessageView>,
) -> bool {
    match r {
        Ok((c, size)) => exists|a: Archived|
            {
                &&& #[trigger] is_data_run(
                    Ok(a),
                    package_deb,
                    files,
                    compress.rsyncable,
                    base_dir,
                    before,
                    said,
                )
                &&& is_compressed(c, compress, a.data@, a.sync_points@)
                &&& size == a.data@.len()
            },
        Err(e) => {
            ||| {
                // there is no compressor
                &&& e.deep_view() is LzmaCompressionError
                &&& compress.compress_type == CompressType::Xz
                &&& said == before
            }
            ||| is_data_run(Err(e), package_deb, files, compress.rsyncable, base_dir, before, said)
            ||| {
                // compressing fails
                &&& e.deep_view() is Io
                &&& compress.compress_type == CompressType::Xz
                &&& exists|a: Archived| #[trigger]
                    is_data_run(
                        Ok(a),
                        package_deb,
                        files,
                        compress.rsyncable,
                        base_dir,
                        before,
                        said,
                    )
            }
        },
    }
}

fn data_part(
    package_deb: &PackageConfig,
    content: &PackageContent,
    compress: CompressConfig,
    base_dir: &str,
    log: &mut Vec<Message>,
) -> (r: CDResult<(Compressed, usize)>)
    requires
        is_known(*package_deb, *content),
    ensures
        is_data_part(
            r,
            *package_deb,
            content.files@,
            compress,
            base_dir@,
            old(log).deep_view(),
            final(log).deep_view(),
        ),
        r is Ok ==> (r->Ok_0).1 > 0,
{
    let compressor = native_compressor(compress.fast, compress.compress_type)?;
    let archive = data_tar(package_deb, &content.files, compress.rsyncable, base_dir, log)?;
    let compressed = compress_at(compressor, &archive.data, &archive.sync_points)?;
    Ok((compressed, archive.data.len()))
}

/// How the two parts of a package come together: the error of the control files goes before that of
/// the others.
pub open spec fn is_joined(
    r: CDResult<Written>,
    control: CDResult<(DebArchive, usize)>,
    data: CDResult<(Compressed, usize)>,
    before: Seq<MessageView>,
    said: Seq<MessageView>,
) -> bool {
    match (control, data) {
        (Err(e), _) => r == Err::<Written, CargoDebError>(e) && said == before,
        (Ok(_), Err(e)) => r == Err::<Written, CargoDebError>(e) && said == before,
        (Ok((deb, control_size)), Ok((c, size))) => {
            &&& r matches Ok(Written::Package(path, content)) && path@ == deb.out_path()
                && content@ == archive_bytes(
                deb.members().push(tarball_member("data.tar."@, c, deb.time())),
            )
            &&& said == before.push(
                size_message(size as nat, control_size as nat, c.spec_data().len()),
            )
        },
    }
}

/// Writes a package: the archives of control files and of files, compressed, in an archive of their
/// own. Where another program is to compress them, the archives are handed out instead.
pub fn write_deb(
    config: &BuildEnvironment,
    deb_output_path: String,
    package_deb: &PackageConfig,
    content: &PackageContent,
    compress: CompressConfig,
    base_dir: &str,
    log: &mut Vec<Message>,
) -> (r: CDResult<Written>)
    requires
        is_known(*package_deb, *content),
    ensures
        !compress.compress_system ==> exists|
            control: CDResult<(DebArchive, usize)>,
            data: CDResult<(Compressed, usize)>,
            mid: Seq<MessageView>,
            end: Seq<MessageView>,
        |
            {
                &&& #[trigger] is_control_part(
                    control,
                    *config,
                    deb_output_path@,
                    *package_deb,
                    content.control,
                    compress,
                    old(log).deep_view(),
                    mid,
                )
                &&& #[trigger] is_data_part(
                    data,
                    *package_deb,
                    content.files@,
                    compress,
                    base_dir@,
                    mid,
                    end,
                )
                &&& is_joined(r, control, data, end, final(log).deep_view())
            },
        compress.compress_system ==> ({
            let b = control_run(*config, *package_deb, content.control, old(log).deep_view());
            exists|d: CDResult<Archived>|
                {
                    &&& #[trigger] is_data_run(
                        d,
                        *package_deb,
                        content.files@,
                        compress.rsyncable,
                        base_dir@,
                        b.messages,
                        final(log).deep_view(),
                    )
                    &&& match r {
                        Ok(w) => {
                            &&& b.error is None && d is Ok
                            &&& w matches Written::ToCompress {
                                archives: a,
                                compress_type: t,
                                level,
                            } && a.data == d->Ok_0 && a.control@ == tar_bytes(
                                b.entries,
                                package_deb.default_timestamp,
                            ) && t == compress.compress_type && level@ == system_level(
                                compress.fast,
                            )
                        },
                        Err(e) => if b.error is Some {
                            b.error == Some(e.deep_view())
                        } else {
                            d == Err::<Archived, CargoDebError>(e)
                        },
                    }
                }
        }),
{
    if compress.compress_system {
        let archives = make_archives(
            config,
            package_deb,
            content,
            compress.rsyncable,
            base_dir,
            log,
        )?;
        let level = if compress.fast {
            "-1"
        } else {
            "-6"
        };
        return Ok(
            Written::ToCompress { archives, compress_type: compress.compress_type, level },
        );
    }
    let control = control_part(config, deb_output_path, package_deb, content, compress, log);
    let ghost mid = log.deep_view();
    let data = data_part(package_deb, content, compress, base_dir, log);
    let ghost end = log.deep_view();
    let ghost (c, d) = (control, data);
    let (mut deb_contents, control_size) = match control {
        Ok(deb) => deb,
        Err(e) => {
            assert(is_joined(Err(e), c, d, end, log.deep_view()));
            return Err(e);
        },
    };
    let (data_compressed, original_data_size) = match data {
        Ok(data) => data,
        Err(e) => {
            assert(is_joined(Err(e), c, d, end, log.deep_view()));
            return Err(e);
        },
    };
    say_sizes(original_data_size, control_size, data_compressed.data().len(), log);
    deb_contents.add_data(data_compressed)?;
    let (path, bytes) = deb_contents.finish()?;
    let r = Ok(Written::Package(path, bytes));
    assert(is_joined(r, c, d, end, log.deep_view()));
    r
}

/// A package is an archive of three members, in this order: the version of the format, the archive
/// of control files, and the archive of the files of the package.
pub proof fn law_package_layout(time: u64, control: Compressed, data: Compressed)
    ensures
        archive_bytes(package_members(time, control, data)) == archive_start() + format_member(
            time,
        ).bytes() + tarball_member("control.tar."@, control, time).bytes() + tarball_member(
            "data.tar."@,
            data,
            time,
        ).bytes(),
{
    let m = package_members(time, control, data);
    reveal_with_fuel(members_bytes, 4);
    assert(m.drop_last() =~= seq![m[0], m[1]]);
    assert(m.drop_last().drop_last() =~= seq![m[0]]);
    assert(m.drop_last().drop_last().drop_last() =~= Seq::empty());
    assert(members_bytes(m) =~= m[0].bytes() + m[1].bytes() + m[2].bytes());
    assert(archive_bytes(m) =~= archive_start() + m[0].bytes() + m[1].bytes() + m[2].bytes());
}

/// The compressed archive of control files in a package.
proof fn lemma_control_member(
    control: CDResult<(DebArchive, usize)>,
    config: BuildEnvironment,
    path: Seq<char>,
    package_deb: PackageConfig,
    files: ControlFiles,
    compress: CompressConfig,
    before: Seq<MessageView>,
    mid: Seq<MessageView>,
) -> (c: Compressed)
    requires
        is_control_part(control, config, path, package_deb, files, compress, before, mid),
        control is Ok,
    ensures
        ({
            let deb = (control->Ok_0).0;
            let time = package_deb.default_timestamp;
            &&& is_compressed(
                c,
                compress,
                tar_bytes(control_run(config, package_deb, files, before).entries, time),
                Seq::empty(),
            )
            &&& deb.members() == seq![
                format_member(time),
                tarball_member("control.tar."@, c, time),
            ]
            &&& deb.out_path() == path
            &&& deb.time() == time
        }),
{
    let deb = (control->Ok_0).0;
    let time = package_deb.default_timestamp;
    let tar = tar_bytes(control_run(config, package_deb, files, before).entries, time);
    choose|c: Compressed|
        {
            &&& #[trigger] is_compressed(c, compress, tar, Seq::empty())
            &&& deb.members() == seq![
                format_member(time),
                tarball_member("control.tar."@, c, time),
            ]
        }
}

/// The archive of the files in a package.
proof fn lemma_data_archive(
    data: CDResult<(Compressed, usize)>,
    package_deb: PackageConfig,
    files: Seq<OnDisk>,
    compress: CompressConfig,
    base_dir: Seq<char>,
    mid: Seq<MessageView>,
    end: Seq<MessageView>,
) -> (a: Archived)
    requires
        is_data_part(data, package_deb, files, compress, base_dir, mid, end),
        data is Ok,
    ensures
        is_data_run(Ok(a), package_deb, files, compress.rsyncable, base_dir, mid, end),
        is_compressed((data->Ok_0).0, compress, a.data@, a.sync_points@),
{
    choose|a: Archived|
        {
            &&& #[trigger] is_data_run(
                Ok(a),
                package_deb,
                files,
                compress.rsyncable,
                base_dir,
                mid,
                end,
            )
            &&& is_compressed((data->Ok_0).0, compress, a.data@, a.sync_points@)
        }
}

/// Whatever has been written natively is such a package, at the path that was asked for; and the
/// archives that are read out of its members are those of the control files and of the files of
/// the package.
pub proof fn law_written_package(
    config: BuildEnvironment,
    path: Seq<char>,
    package_deb: PackageConfig,
    content: PackageContent,
    compress: CompressConfig,
    base_dir: Seq<char>,
    control: CDResult<(DebArchive, usize)>,
    data: CDResult<(Compressed, usize)>,
    before: Seq<MessageView>,
    mid: Seq<MessageView>,
    end: Seq<MessageView>,
    said: Seq<MessageView>,
    r: CDResult<Written>,
) -> (parts: (Compressed, Compressed, Archived))
    requires
        is_control_part(control, config, path, package_deb, content.control, compress, before, mid),
        is_data_part(data, package_deb, content.files@, compress, base_dir, mid, end),
        is_joined(r, control, data, end, said),
        r is Ok,
    ensures
        r->Ok_0 is Package,
        (r->Ok_0)->Package_0@ == path,
        (r->Ok_0)->Package_1@ == archive_bytes(
            package_members(package_deb.default_timestamp, parts.0, parts.1),
        ),
        decoded(parts.0) == Some(
            tar_bytes(
                control_run(config, package_deb, content.control, before).entries,
                package_deb.default_timestamp,
            ),
        ),
        decoded(parts.1) == Some(parts.2.data@),
        is_data_run(
            Ok(parts.2),
            package_deb,
            content.files@,
            compress.rsyncable,
            base_dir,
            mid,
            end,
        ),
{
    let d = (data->Ok_0).0;
    let time = package_deb.default_timestamp;
    let c = lemma_control_member(
        control,
        config,
        path,
        package_deb,
        content.control,
        compress,
        before,
        mid,
    );
    let a = lemma_data_archive(
        data,
        package_deb,
        content.files@,
        compress,
        base_dir,
        mid,
        end,
    );
    assert((control->Ok_0).0.members().push(tarball_member("data.tar."@, d, time))
        =~= package_members(time, c, d));
    (c, d, a)
}

/// Out of a package its three members are read, and out of the archives in them, decompressed, all
/// their entries.
pub proof fn law_package_is_read_back(
    time: u64,
    control: Compressed,
    data: Compressed,
    control_entries: Seq<Entry>,
    data_entries: Seq<Entry>,
)
    requires
        time < 1_000_000_000_000,
        control.spec_data().len() < 10_000_000_000,
        data.spec_data().len() < 10_000_000_000,
        decoded(control) == Some(tar_bytes(control_entries, time)),
        decoded(data) == Some(tar_bytes(data_entries, time)),
        forall|i: int|
            0 <= i < control_entries.len() ==> reading::is_plain(#[trigger] control_entries[i]),
        forall|i: int| 0 <= i < data_entries.len() ==> reading::is_plain(#[trigger] data_entries[i]),
    ensures
        ({
            let b = archive_bytes(package_members(time, control, data));
            let n = archive_start().len() as int;
            &&& b.take(n) == archive_start()
            &&& read_members(b.skip(n)) == seq![
                seen(format_member(time)),
                seen(tarball_member("control.tar."@, control, time)),
                seen(tarball_member("data.tar."@, data, time)),
            ]
        }),
        read_archive(decoded(control)->0) == control_entries.map_values(
            |e: Entry| reading::seen(e, time),
        ),
        read_archive(decoded(data)->0) == data_entries.map_values(
            |e: Entry| reading::seen(e, time),
        ),
{
    lemma_members_are_read(time, control, data);
    law_archive_is_read_back(control_entries, time);
    law_archive_is_read_back(data_entries, time);
}

/// The members that are read out of a package.
proof fn lemma_members_are_read(time: u64, control: Compressed, data: Compressed)
    requires
        time < 1_000_000_000_000,
        control.spec_data().len() < 10_000_000_000,
        data.spec_data().len() < 10_000_000_000,
    ensures
        ({
            let b = archive_bytes(package_members(time, control, data));
            let n = archive_start().len() as int;
            &&& b.take(n) == archive_start()
            &&& read_members(b.skip(n)) == seq![
                seen(format_member(time)),
                seen(tarball_member("control.tar."@, control, time)),
                seen(tarball_member("data.tar."@, data, time)),
            ]
        }),
{
    let members = package_members(time, control, data);
    let all = seq![seen(members[0]), seen(members[1]), seen(members[2])];
    assert forall|i: int| 0 <= i < members.len() implies unpacking::is_plain(
        #[trigger] members[i],
    ) by {
        lemma_package_names(time, control, data);
        assert(members[i] == members[0] || members[i] == members[1] || members[i] == members[2]);
    }
    assert(members.map_values(|m: crate::deb::archive::Member| seen(m)) =~= all);
    law_members_are_read_back(members);
}

proof fn lemma_package_names(time: u64, control: Compressed, data: Compressed)
    ensures
        !is_long(encode_utf8(format_member(time).name)),
        !is_long(encode_utf8(tarball_member("control.tar."@, control, time).name)),
        !is_long(encode_utf8(tarball_member("data.tar."@, data, time).name)),
{
    reveal_strlit("debian-binary");
    reveal_strlit("control.tar.");
    reveal_strlit("data.tar.");
    vstd::utf8::is_ascii_chars_encode_utf8("debian-binary"@);
    lemma_short_name("control.tar."@, control);
    lemma_short_name("data.tar."@, data);
}

/// Builds are reproducible: packages of the same files that are compressed with gzip do not differ,
/// nor do their paths.
pub proof fn law_same_files_same_package(
    config: BuildEnvironment,
    path: Seq<char>,
    package_deb: PackageConfig,
    content: PackageContent,
    compress: CompressConfig,
    base_dir: Seq<char>,
    first: (CDResult<(DebArchive, usize)>, CDResult<(Compressed, usize)>, CDResult<Written>),
    second: (CDResult<(DebArchive, usize)>, CDResult<(Compressed, usize)>, CDResult<Written>),
    before: Seq<MessageView>,
    mid: Seq<MessageView>,
    end: Seq<MessageView>,
    said: Seq<MessageView>,
)
    requires
        compress.compress_type == CompressType::Gzip,
        is_control_part(first.0, config, path, package_deb, content.control, compress, before, mid),
        is_control_part(second.0, config, path, package_deb, content.control, compress, before, mid),
        is_data_part(first.1, package_deb, content.files@, compress, base_dir, mid, end),
        is_data_part(second.1, package_deb, content.files@, compress, base_dir, mid, end),
        is_joined(first.2, first.0, first.1, end, said),
        is_joined(second.2, second.0, second.1, end, said),
        first.2 is Ok,
        second.2 is Ok,
    ensures
        (first.2->Ok_0)->Package_0@ == (second.2->Ok_0)->Package_0@,
        (first.2->Ok_0)->Package_1@ == (second.2->Ok_0)->Package_1@,
{
    let time = package_deb.default_timestamp;
    let c1 = lemma_control_member(
        first.0,
        config,
        path,
        package_deb,
        content.control,
        compress,
        before,
        mid,
    );
    let c2 = lemma_control_member(
        second.0,
        config,
        path,
        package_deb,
        content.control,
        compress,
        before,
        mid,
    );
    assert(tarball_member("control.tar."@, c1, time) == tarball_member("control.tar."@, c2, time));
    let a1 = lemma_data_archive(
        first.1,
        package_deb,
        content.files@,
        compress,
        base_dir,
        mid,
        end,
    );
    let a2 = lemma_data_archive(
        second.1,
        package_deb,
        content.files@,
        compress,
        base_dir,
        mid,
        end,
    );
    assert(a1.data@ == a2.data@ && a1.sync_points@ == a2.sync_points@);
    let (d1, d2) = ((first.1->Ok_0).0, (second.1->Ok_0).0);
    assert(tarball_member("data.tar."@, d1, time) == tarball_member("data.tar."@, d2, time));
}

} // verus!
