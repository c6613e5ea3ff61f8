//! The outermost archive of a package.
use crate::compress::Compressed;
use crate::config::generated::bytes_of;
use crate::config::PackageConfig;
use crate::deb::members::{append_member, ar_written, archive_bytes_of, archive_start, fields, is_long, member_block, new_archive, ArWriter, MemberFields};
use crate::deb::tar_blocks::describe;
use crate::error::{CDResult, CargoDebError, Cause, ErrorView};
use crate::paths::{parent, parent_of};
use crate::text::{cat, cat3};
use vstd::prelude::*;
use vstd::string::StringExecFns;
use vstd::utf8::encode_utf8;

verus! {

/// A member of an archive.
pub struct Member {
    pub name: Seq<char>,
    pub time: u64,
    pub data: Seq<u8>,
}

impl Member {
    /// What the header says. `dpkg` uses these permissions.
    pub open spec fn fields(self) -> MemberFields {
        MemberFields {
            identifier: encode_utf8(self.name),
            mtime: self.time,
            uid: 0,
            gid: 0,
            mode: 0o100644,
            size: self.data.len() as u64,
        }
    }

    pub open spec fn bytes(self) -> Seq<u8> {
        member_block(self.fields(), self.data)
    }
}

/// The members one behind the other.
pub open spec fn members_bytes(members: Seq<Member>) -> Seq<u8>
    decreases members.len(),
{
    if members.len() == 0 {
        Seq::empty()
    } else {
        members_bytes(members.drop_last()) + members.last().bytes()
    }
}

/// An archive with these members.
pub open spec fn archive_bytes(members: Seq<Member>) -> Seq<u8> {
    if members.len() == 0 {
        Seq::empty()
    } else {
        archive_start() + members_bytes(members)
    }
}

/// An archive that is being written.
pub struct Archive {
    pub out_abspath: String,
    ar_builder: ArWriter,
    members: Ghost<Seq<Member>>,
}

impl Archive {
    pub closed spec fn members(self) -> Seq<Member> {
        self.members@
    }

    /// Where the archive goes.
    pub closed spec fn out_path(self) -> Seq<char> {
        self.out_abspath@
    }

    /// What has been written are the members.
    pub closed spec fn wf(self) -> bool {
        ar_written(self.ar_builder) == archive_bytes(self.members@)
    }

    /// An archive without members, at a path that has a directory.
    pub fn new(out_abspath: String) -> (r: CDResult<Self>)
        ensures
            r is Ok <==> parent(out_abspath@) is Some,
            r is Err ==> r->Err_0.deep_view() == ErrorView::Str("invalid dir"@),
            r is Ok ==> r->Ok_0.wf() && r->Ok_0.members().len() == 0 && r->Ok_0.out_path()
                == out_abspath@,
    {
        if parent_of(out_abspath.as_str()).is_none() {
            return Err(CargoDebError::Str("invalid dir"));
        }
        Ok(Archive { out_abspath, ar_builder: new_archive(), members: Ghost(Seq::empty()) })
    }

    /// The pattern of the files of all versions of a package.
    pub fn filename_glob(deb: &PackageConfig) -> (r: String)
        ensures
            r@ == deb.deb_name@ + "_*_"@ + deb.architecture@ + ".deb"@,
    {
        let mut s = cat3(deb.deb_name.as_str(), "_*_", deb.architecture.as_str());
        s.append(".deb");
        s
    }

    /// Adds a member.
    pub fn add_data(&mut self, dest_path: String, mtime_timestamp: u64, data: &[u8]) -> (r: CDResult<
        (),
    >)
        requires
            old(self).wf(),
            is_long(encode_utf8(dest_path@)) ==> data@.len() + encode_utf8(dest_path@).len() + 3
                <= u64::MAX,
        ensures
            r is Ok,
            final(self).wf(),
            final(self).out_path() == old(self).out_path(),
            final(self).members() == old(self).members().push(
                Member { name: dest_path@, time: mtime_timestamp, data: data@ },
            ),
    {
        let ghost m = Member { name: dest_path@, time: mtime_timestamp, data: data@ };
        let ghost before = self.members@;
        let identifier = bytes_of(dest_path.as_str());
        let mut header = ar::Header::new(identifier, data.len() as u64);
        header.set_mode(0o100644);  // dpkg uses 100644
        header.set_mtime(mtime_timestamp);
        header.set_uid(0);
        header.set_gid(0);
        assert(fields(header) == m.fields());
        proof {
            if before.len() > 0 {
                lemma_start_len();
            }
        }
        match append_member(&mut self.ar_builder, &header, data) {
            Ok(()) => {},
            Err(e) => {
                return Err(
                    CargoDebError::Io(Cause { message: describe(&e), sources: Vec::new() }),
                );
            },
        }
        proof {
            self.members@ = before.push(m);
            assert(before.push(m).drop_last() =~= before);
            assert(archive_start() + (members_bytes(before) + m.bytes()) =~= archive_start()
                + members_bytes(before) + m.bytes());
            assert(before.len() == 0 ==> members_bytes(before.push(m)) =~= m.bytes());
        }
        Ok(())
    }

    /// Where the archive goes, and its content.
    pub fn finish(self) -> (r: CDResult<(String, Vec<u8>)>)
        requires
            self.wf(),
        ensures
            r is Ok,
            (r->Ok_0).0@ == self.out_path(),
            (r->Ok_0).1@ == archive_bytes(self.members()),
    {
        match archive_bytes_of(self.ar_builder) {
            Ok(data) => Ok((self.out_abspath, data)),
            Err(e) => Err(
                CargoDebError::Io(Cause { message: describe(&e), sources: Vec::new() }),
            ),
        }
    }
}

proof fn lemma_start_len()
    ensures
        archive_start().len() == 8,
{
    reveal_strlit("!<arch>\n");
}

/// The outermost `ar` archive that contains tarballs inside
pub struct DebArchive {
    archive: Archive,
    mtime_timestamp: u64,
}

/// The member that says which format the package has.
pub open spec fn format_member(time: u64) -> Member {
    Member { name: "debian-binary"@, time, data: seq![50u8, 46u8, 48u8, 10u8] }
}

/// A tarball as a member.
pub open spec fn tarball_member(name: Seq<char>, tarball: Compressed, time: u64) -> Member {
    Member {
        name: name + tarball.spec_type().spec_extension(),
        time,
        data: tarball.spec_data(),
    }
}

impl DebArchive {
    pub closed spec fn members(self) -> Seq<Member> {
        self.archive.members()
    }

    pub closed spec fn out_path(self) -> Seq<char> {
        self.archive.out_path()
    }

    pub closed spec fn time(self) -> u64 {
        self.mtime_timestamp
    }

    pub closed spec fn wf(self) -> bool {
        self.archive.wf()
    }

    /// A package with nothing but its format, at a path that has a directory.
    pub fn new(out_abspath: String, mtime_timestamp: u64) -> (r: CDResult<Self>)
        ensures
            r is Ok <==> parent(out_abspath@) is Some,
            r is Err ==> r->Err_0.deep_view() == ErrorView::Str("invalid dir"@),
            r is Ok ==> {
                &&& r->Ok_0.wf()
                &&& r->Ok_0.out_path() == out_abspath@
                &&& r->Ok_0.time() == mtime_timestamp
                &&& r->Ok_0.members() == seq![format_member(mtime_timestamp)]
            },
    {
        let archive = Archive::new(out_abspath)?;
        let mut ar = DebArchive { archive, mtime_timestamp };
        proof {
            reveal_strlit("2.0\n");
            reveal_strlit("debian-binary");
            assert("2.0\n".is_ascii());
            assert("debian-binary".is_ascii());
            vstd::utf8::is_ascii_chars_encode_utf8("2.0\n"@);
            vstd::utf8::is_ascii_chars_encode_utf8("debian-binary"@);
            assert(encode_utf8("2.0\n"@) =~= seq![50u8, 46u8, 48u8, 10u8]);
        }
        ar.add_file("debian-binary".to_owned(), "2.0\n".as_bytes())?;
        assert(ar.members() =~= seq![format_member(mtime_timestamp)]);
        Ok(ar)
    }

    /// Adds the archive of control files.
    pub fn add_control(&mut self, control_tarball: Compressed) -> (r: CDResult<()>)
        requires
            old(self).wf(),
        ensures
            r is Ok,
            final(self).wf(),
            final(self).out_path() == old(self).out_path(),
            final(self).time() == old(self).time(),
            final(self).members() == old(self).members().push(
                tarball_member("control.tar."@, control_tarball, old(self).time()),
            ),
    {
        let name = cat("control.tar.", control_tarball.extension());
        proof {
            reveal_strlit("control.tar.");
            lemma_short_name("control.tar."@, control_tarball);
        }
        self.add_file(name, control_tarball.data().as_slice())
    }

    /// Adds the archive of the files of the package.
    pub fn add_data(&mut self, data_tarball: Compressed) -> (r: CDResult<()>)
        requires
            old(self).wf(),
        ensures
            r is Ok,
            final(self).wf(),
            final(self).out_path() == old(self).out_path(),
            final(self).time() == old(self).time(),
            final(self).members() == old(self).members().push(
                tarball_member("data.tar."@, data_tarball, old(self).time()),
            ),
    {
        let name = cat("data.tar.", data_tarball.extension());
        proof {
            reveal_strlit("data.tar.");
            lemma_short_name("data.tar."@, data_tarball);
        }
        self.add_file(name, data_tarball.data().as_slice())
    }

    fn add_file(&mut self, dest_path: String, data: &[u8]) -> (r: CDResult<()>)
        requires
            old(self).wf(),
            !is_long(encode_utf8(dest_path@)),
        ensures
            r is Ok,
            final(self).wf(),
            final(self).out_path() == old(self).out_path(),
            final(self).time() == old(self).time(),
            final(self).members() == old(self).members().push(
                Member { name: dest_path@, time: old(self).time(), data: data@ },
            ),
    {
        let time = self.mtime_timestamp;
        self.archive.add_data(dest_path, time, data)
    }

    /// Where the package goes, and its content.
    pub fn finish(self) -> (r: CDResult<(String, Vec<u8>)>)
        requires
            self.wf(),
        ensures
            r is Ok,
            (r->Ok_0).0@ == self.out_path(),
            (r->Ok_0).1@ == archive_bytes(self.members()),
    {
        self.archive.finish()
    }
}

/// The name of a tarball in a package is short.
pub proof fn lemma_short_name(name: Seq<char>, tarball: Compressed)
    requires
        name.len() <= 12,
        vstd::utf8::is_ascii_chars(name),
        !name.contains(' '),
    ensures
        !is_long(encode_utf8(name + tarball.spec_type().spec_extension())),
{
    let ext = tarball.spec_type().spec_extension();
    reveal_strlit("xz");
    reveal_strlit("gz");
    assert(vstd::utf8::is_ascii_chars(name + ext)) by {
        assert forall|i: int| 0 <= i < (name + ext).len() implies '\0' <= #[trigger] (name + ext)[i]
            <= '\u{7f}' by {
            if i < name.len() {
                assert((name + ext)[i] == name[i]);
            } else {
                assert((name + ext)[i] == ext[i - name.len()]);
            }
        }
    }
    vstd::utf8::is_ascii_chars_encode_utf8(name + ext);
    let bytes = encode_utf8(name + ext);
    assert forall|i: int| 0 <= i < bytes.len() implies #[trigger] bytes[i] != 32 by {
        assert(bytes[i] == (name + ext)[i] as u8);
        if i < name.len() {
            assert(name.contains(name[i]));
        }
    }
}

} // verus!
