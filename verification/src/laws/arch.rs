//! Names of machines.
use crate::arch::{debian_architecture, debian_triple};
use crate::text::{has_prefix, has_suffix, split};
use vstd::prelude::*;

verus! {

/// What Debian calls the machine of a target, for the machines that many have.
pub proof fn law_architectures_of_targets(triple: Seq<char>, cpu: Seq<char>, abi: Seq<char>)
    requires
        split(triple, '-').len() > 1,
        split(triple, '-')[0] == cpu,
        split(triple, '-').last() == abi,
    ensures
        cpu == "x86_64"@ && abi != "gnux32"@ ==> debian_architecture(triple) == "amd64"@,
        cpu == "x86_64"@ && abi == "gnux32"@ ==> debian_architecture(triple) == "x32"@,
        cpu == "aarch64"@ ==> debian_architecture(triple) == "arm64"@,
        cpu == "i586"@ || cpu == "i686"@ ==> debian_architecture(triple) == "i386"@,
        cpu == "powerpc64le"@ ==> debian_architecture(triple) == "ppc64el"@,
        cpu == "powerpc64"@ ==> debian_architecture(triple) == "ppc64"@,
        cpu == "riscv64gc"@ ==> debian_architecture(triple) == "riscv64"@,
        cpu == "s390x"@ ==> debian_architecture(triple) == "s390x"@,
        cpu == "loongarch64"@ ==> debian_architecture(triple) == "loong64"@,
        cpu == "armv7"@ || cpu == "arm"@ ==> debian_architecture(triple) == (if has_suffix(
            abi,
            "hf"@,
        ) {
            "armhf"@
        } else {
            "armel"@
        }),
{
    reveal_strlit("x86_64");
    reveal_strlit("aarch64");
    reveal_strlit("aarch64_be");
    reveal_strlit("i586");
    reveal_strlit("i686");
    reveal_strlit("x86");
    reveal_strlit("powerpc64le");
    reveal_strlit("powerpc64");
    reveal_strlit("powerpc");
    reveal_strlit("riscv64gc");
    reveal_strlit("s390x");
    reveal_strlit("loongarch64");
    reveal_strlit("armv7");
    reveal_strlit("arm");
    reveal_strlit("thumb");
    reveal_strlit("mips64");
    reveal_strlit("mips64el");
    reveal_strlit("mipsisa32r6");
    reveal_strlit("mipsisa32r6el");
    reveal_strlit("mipsisa64r6");
    reveal_strlit("mipsisa64r6el");
    assert("armv7"@.take(3) =~= "arm"@);
    assert("arm"@.take(3) =~= "arm"@);
    if cpu == "s390x"@ {
        assert(!has_prefix(cpu, "arm"@)) by {
            assert(cpu.take(3)[0] == 's');
        }
        assert(!has_prefix(cpu, "thumb"@)) by {
            assert(cpu.take(5)[0] == 's');
        }
        assert(cpu[0] != "riscv64gc"@[0] && cpu.len() != "x86_64"@.len());
    }
    lemma_names_differ();
}

/// Different texts.
proof fn lemma_names_differ()
    ensures
        "aarch64"@ != "aarch64_be"@,
        "aarch64"@ != "mips64"@,
        "aarch64"@ != "mips64el"@,
        "aarch64"@ != "mipsisa32r6"@,
        "aarch64"@ != "mipsisa32r6el"@,
        "aarch64"@ != "mipsisa64r6"@,
        "aarch64"@ != "mipsisa64r6el"@,
        "aarch64"@ != "powerpc"@,
        "aarch64"@ != "powerpc64"@,
        "aarch64"@ != "powerpc64le"@,
        "aarch64"@ != "riscv64gc"@,
        "aarch64"@ != "i586"@,
        "aarch64"@ != "i686"@,
        "aarch64"@ != "x86"@,
        "aarch64"@ != "x86_64"@,
        "aarch64"@ != "loongarch64"@,
        "aarch64"@ != "s390x"@,
        "aarch64"@ != "armv7"@,
        "aarch64"@ != "arm"@,
        "aarch64"@ != "thumb"@,
        "aarch64_be"@ != "mips64"@,
        "aarch64_be"@ != "mips64el"@,
        "aarch64_be"@ != "mipsisa32r6"@,
        "aarch64_be"@ != "mipsisa32r6el"@,
        "aarch64_be"@ != "mipsisa64r6"@,
        "aarch64_be"@ != "mipsisa64r6el"@,
        "aarch64_be"@ != "powerpc"@,
        "aarch64_be"@ != "powerpc64"@,
        "aarch64_be"@ != "powerpc64le"@,
        "aarch64_be"@ != "riscv64gc"@,
        "aarch64_be"@ != "i586"@,
        "aarch64_be"@ != "i686"@,
        "aarch64_be"@ != "x86"@,
        "aarch64_be"@ != "x86_64"@,
        "aarch64_be"@ != "loongarch64"@,
        "aarch64_be"@ != "s390x"@,
        "aarch64_be"@ != "armv7"@,
        "aarch64_be"@ != "arm"@,
        "aarch64_be"@ != "thumb"@,
        "mips64"@ != "mips64el"@,
        "mips64"@ != "mipsisa32r6"@,
        "mips64"@ != "mipsisa32r6el"@,
        "mips64"@ != "mipsisa64r6"@,
        "mips64"@ != "mipsisa64r6el"@,
        "mips64"@ != "powerpc"@,
        "mips64"@ != "powerpc64"@,
        "mips64"@ != "powerpc64le"@,
        "mips64"@ != "riscv64gc"@,
        "mips64"@ != "i586"@,
        "mips64"@ != "i686"@,
        "mips64"@ != "x86"@,
        "mips64"@ != "x86_64"@,
        "mips64"@ != "loongarch64"@,
        "mips64"@ != "s390x"@,
        "mips64"@ != "armv7"@,
        "mips64"@ != "arm"@,
        "mips64"@ != "thumb"@,
        "mips64el"@ != "mipsisa32r6"@,
        "mips64el"@ != "mipsisa32r6el"@,
        "mips64el"@ != "mipsisa64r6"@,
        "mips64el"@ != "mipsisa64r6el"@,
        "mips64el"@ != "powerpc"@,
        "mips64el"@ != "powerpc64"@,
        "mips64el"@ != "powerpc64le"@,
        "mips64el"@ != "riscv64gc"@,
        "mips64el"@ != "i586"@,
        "mips64el"@ != "i686"@,
        "mips64el"@ != "x86"@,
        "mips64el"@ != "x86_64"@,
        "mips64el"@ != "loongarch64"@,
        "mips64el"@ != "s390x"@,
        "mips64el"@ != "armv7"@,
        "mips64el"@ != "arm"@,
        "mips64el"@ != "thumb"@,
        "mipsisa32r6"@ != "mipsisa32r6el"@,
        "mipsisa32r6"@ != "mipsisa64r6"@,
        "mipsisa32r6"@ != "mipsisa64r6el"@,
        "mipsisa32r6"@ != "powerpc"@,
        "mipsisa32r6"@ != "powerpc64"@,
        "mipsisa32r6"@ != "powerpc64le"@,
        "mipsisa32r6"@ != "riscv64gc"@,
        "mipsisa32r6"@ != "i586"@,
        "mipsisa32r6"@ != "i686"@,
        "mipsisa32r6"@ != "x86"@,
        "mipsisa32r6"@ != "x86_64"@,
        "mipsisa32r6"@ != "loongarch64"@,
        "mipsisa32r6"@ != "s390x"@,
        "mipsisa32r6"@ != "armv7"@,
        "mipsisa32r6"@ != "arm"@,
        "mipsisa32r6"@ != "thumb"@,
        "mipsisa32r6el"@ != "mipsisa64r6"@,
        "mipsisa32r6el"@ != "mipsisa64r6el"@,
        "mipsisa32r6el"@ != "powerpc"@,
        "mipsisa32r6el"@ != "powerpc64"@,
        "mipsisa32r6el"@ != "powerpc64le"@,
        "mipsisa32r6el"@ != "riscv64gc"@,
        "mipsisa32r6el"@ != "i586"@,
        "mipsisa32r6el"@ != "i686"@,
        "mipsisa32r6el"@ != "x86"@,
        "mipsisa32r6el"@ != "x86_64"@,
        "mipsisa32r6el"@ != "loongarch64"@,
        "mipsisa32r6el"@ != "s390x"@,
        "mipsisa32r6el"@ != "armv7"@,
        "mipsisa32r6el"@ != "arm"@,
        "mipsisa32r6el"@ != "thumb"@,
        "mipsisa64r6"@ != "mipsisa64r6el"@,
        "mipsisa64r6"@ != "powerpc"@,
        "mipsisa64r6"@ != "powerpc64"@,
        "mipsisa64r6"@ != "powerpc64le"@,
        "mipsisa64r6"@ != "riscv64gc"@,
        "mipsisa64r6"@ != "i586"@,
        "mipsisa64r6"@ != "i686"@,
        "mipsisa64r6"@ != "x86"@,
        "mipsisa64r6"@ != "x86_64"@,
        "mipsisa64r6"@ != "loongarch64"@,
        "mipsisa64r6"@ != "s390x"@,
        "mipsisa64r6"@ != "armv7"@,
        "mipsisa64r6"@ != "arm"@,
        "mipsisa64r6"@ != "thumb"@,
        "mipsisa64r6el"@ != "powerpc"@,
        "mipsisa64r6el"@ != "powerpc64"@,
        "mipsisa64r6el"@ != "powerpc64le"@,
        "mipsisa64r6el"@ != "riscv64gc"@,
        "mipsisa64r6el"@ != "i586"@,
        "mipsisa64r6el"@ != "i686"@,
        "mipsisa64r6el"@ != "x86"@,
        "mipsisa64r6el"@ != "x86_64"@,
        "mipsisa64r6el"@ != "loongarch64"@,
        "mipsisa64r6el"@ != "s390x"@,
        "mipsisa64r6el"@ != "armv7"@,
        "mipsisa64r6el"@ != "arm"@,
        "mipsisa64r6el"@ != "thumb"@,
        "powerpc"@ != "powerpc64"@,
        "powerpc"@ != "powerpc64le"@,
        "powerpc"@ != "riscv64gc"@,
        "powerpc"@ != "i586"@,
        "powerpc"@ != "i686"@,
        "powerpc"@ != "x86"@,
        "powerpc"@ != "x86_64"@,
        "powerpc"@ != "loongarch64"@,
        "powerpc"@ != "s390x"@,
        "powerpc"@ != "armv7"@,
        "powerpc"@ != "arm"@,
        "powerpc"@ != "thumb"@,
        "powerpc64"@ != "powerpc64le"@,
        "powerpc64"@ != "riscv64gc"@,
        "powerpc64"@ != "i586"@,
        "powerpc64"@ != "i686"@,
        "powerpc64"@ != "x86"@,
        "powerpc64"@ != "x86_64"@,
        "powerpc64"@ != "loongarch64"@,
        "powerpc64"@ != "s390x"@,
        "powerpc64"@ != "armv7"@,
        "powerpc64"@ != "arm"@,
        "powerpc64"@ != "thumb"@,
        "powerpc64le"@ != "riscv64gc"@,
        "powerpc64le"@ != "i586"@,
        "powerpc64le"@ != "i686"@,
        "powerpc64le"@ != "x86"@,
        "powerpc64le"@ != "x86_64"@,
        "powerpc64le"@ != "loongarch64"@,
        "powerpc64le"@ != "s390x"@,
        "powerpc64le"@ != "armv7"@,
        "powerpc64le"@ != "arm"@,
        "powerpc64le"@ != "thumb"@,
        "riscv64gc"@ != "i586"@,
        "riscv64gc"@ != "i686"@,
        "riscv64gc"@ != "x86"@,
        "riscv64gc"@ != "x86_64"@,
        "riscv64gc"@ != "loongarch64"@,
        "riscv64gc"@ != "s390x"@,
        "riscv64gc"@ != "armv7"@,
        "riscv64gc"@ != "arm"@,
        "riscv64gc"@ != "thumb"@,
        "i586"@ != "i686"@,
        "i586"@ != "x86"@,
        "i586"@ != "x86_64"@,
        "i586"@ != "loongarch64"@,
        "i586"@ != "s390x"@,
        "i586"@ != "armv7"@,
        "i586"@ != "arm"@,
        "i586"@ != "thumb"@,
        "i686"@ != "x86"@,
        "i686"@ != "x86_64"@,
        "i686"@ != "loongarch64"@,
        "i686"@ != "s390x"@,
        "i686"@ != "armv7"@,
        "i686"@ != "arm"@,
        "i686"@ != "thumb"@,
        "x86"@ != "x86_64"@,
        "x86"@ != "loongarch64"@,
        "x86"@ != "s390x"@,
        "x86"@ != "armv7"@,
        "x86"@ != "arm"@,
        "x86"@ != "thumb"@,
        "x86_64"@ != "loongarch64"@,
        "x86_64"@ != "s390x"@,
        "x86_64"@ != "armv7"@,
        "x86_64"@ != "arm"@,
        "x86_64"@ != "thumb"@,
        "loongarch64"@ != "s390x"@,
        "loongarch64"@ != "armv7"@,
        "loongarch64"@ != "arm"@,
        "loongarch64"@ != "thumb"@,
        "s390x"@ != "armv7"@,
        "s390x"@ != "arm"@,
        "s390x"@ != "thumb"@,
        "armv7"@ != "arm"@,
        "armv7"@ != "thumb"@,
        "arm"@ != "thumb"@,
{
    reveal_strlit("aarch64");
    assert("aarch64"@.len() == 7);
    reveal_strlit("aarch64_be");
    assert("aarch64_be"@.len() == 10);
    reveal_strlit("mips64");
    assert("mips64"@.len() == 6);
    reveal_strlit("mips64el");
    assert("mips64el"@.len() == 8);
    reveal_strlit("mipsisa32r6");
    assert("mipsisa32r6"@.len() == 11);
    reveal_strlit("mipsisa32r6el");
    assert("mipsisa32r6el"@.len() == 13);
    reveal_strlit("mipsisa64r6");
    assert("mipsisa64r6"@.len() == 11);
    reveal_strlit("mipsisa64r6el");
    assert("mipsisa64r6el"@.len() == 13);
    reveal_strlit("powerpc");
    assert("powerpc"@.len() == 7);
    reveal_strlit("powerpc64");
    assert("powerpc64"@.len() == 9);
    reveal_strlit("powerpc64le");
    assert("powerpc64le"@.len() == 11);
    reveal_strlit("riscv64gc");
    assert("riscv64gc"@.len() == 9);
    reveal_strlit("i586");
    assert("i586"@.len() == 4);
    reveal_strlit("i686");
    assert("i686"@.len() == 4);
    reveal_strlit("x86");
    assert("x86"@.len() == 3);
    reveal_strlit("x86_64");
    assert("x86_64"@.len() == 6);
    reveal_strlit("loongarch64");
    assert("loongarch64"@.len() == 11);
    reveal_strlit("s390x");
    assert("s390x"@.len() == 5);
    reveal_strlit("armv7");
    assert("armv7"@.len() == 5);
    reveal_strlit("arm");
    assert("arm"@.len() == 3);
    reveal_strlit("thumb");
    assert("thumb"@.len() == 5);
    assert("aarch64"@[0] != "powerpc"@[0]);
    assert("mips64"@[0] != "x86_64"@[0]);
    assert("mipsisa32r6"@[7] != "mipsisa64r6"@[7]);
    assert("mipsisa32r6"@[0] != "powerpc64le"@[0]);
    assert("mipsisa32r6"@[0] != "loongarch64"@[0]);
    assert("mipsisa32r6el"@[7] != "mipsisa64r6el"@[7]);
    assert("mipsisa64r6"@[0] != "powerpc64le"@[0]);
    assert("mipsisa64r6"@[0] != "loongarch64"@[0]);
    assert("powerpc64"@[0] != "riscv64gc"@[0]);
    assert("powerpc64le"@[0] != "loongarch64"@[0]);
    assert("i586"@[1] != "i686"@[1]);
    assert("x86"@[0] != "arm"@[0]);
    assert("s390x"@[0] != "armv7"@[0]);
    assert("s390x"@[0] != "thumb"@[0]);
    assert("armv7"@[0] != "thumb"@[0]);
}

/// The directories of Debian are named after the machine and what its programs link to.
pub proof fn law_triples_of_targets(triple: Seq<char>, cpu: Seq<char>, abi: Seq<char>)
    requires
        split(triple, '-').len() > 1,
        split(triple, '-')[0] == cpu,
        split(triple, '-').last() == abi,
    ensures
        cpu == "x86_64"@ ==> debian_triple(triple) == "x86_64-linux-gnu"@,
        cpu == "aarch64"@ ==> debian_triple(triple) == "aarch64-linux-gnu"@,
        cpu == "i686"@ || cpu == "i586"@ ==> debian_triple(triple) == "i386-linux-gnu"@,
        cpu == "riscv64gc"@ ==> debian_triple(triple) == "riscv64-linux-gnu"@,
        cpu == "armv7"@ || cpu == "arm"@ ==> debian_triple(triple) == (if has_suffix(abi, "hf"@) {
            "arm-linux-gnueabihf"@
        } else {
            "arm-linux-gnueabi"@
        }),
        cpu == "s390x"@ && (abi == "gnu"@ || abi == "musl"@) ==> debian_triple(triple)
            == "s390x-linux-gnu"@,
{
    reveal_strlit("x86_64");
    reveal_strlit("aarch64");
    reveal_strlit("i586");
    reveal_strlit("i686");
    reveal_strlit("i386");
    reveal_strlit("riscv64gc");
    reveal_strlit("riscv64");
    reveal_strlit("s390x");
    reveal_strlit("armv7");
    reveal_strlit("arm");
    reveal_strlit("thumb");
    reveal_strlit("mipsel");
    reveal_strlit("mips64");
    reveal_strlit("mips64el");
    reveal_strlit("loongarch64");
    reveal_strlit("-linux-");
    reveal_strlit("gnu");
    reveal_strlit("musl");
    reveal_strlit("muslspe");
    reveal_strlit("gnueabihf");
    reveal_strlit("gnueabi");
    reveal_strlit("x86_64-linux-gnu");
    reveal_strlit("aarch64-linux-gnu");
    reveal_strlit("i386-linux-gnu");
    reveal_strlit("riscv64-linux-gnu");
    reveal_strlit("s390x-linux-gnu");
    reveal_strlit("arm-linux-gnueabihf");
    reveal_strlit("arm-linux-gnueabi");
    assert("x86_64"@ + "-linux-"@ + "gnu"@ =~= "x86_64-linux-gnu"@);
    assert("aarch64"@ + "-linux-"@ + "gnu"@ =~= "aarch64-linux-gnu"@);
    assert("i386"@ + "-linux-"@ + "gnu"@ =~= "i386-linux-gnu"@);
    assert("riscv64"@ + "-linux-"@ + "gnu"@ =~= "riscv64-linux-gnu"@);
    assert("s390x"@ + "-linux-"@ + "gnu"@ =~= "s390x-linux-gnu"@);
    assert("arm"@ + "-linux-"@ + "gnueabihf"@ =~= "arm-linux-gnueabihf"@);
    assert("arm"@ + "-linux-"@ + "gnueabi"@ =~= "arm-linux-gnueabi"@);
    assert("armv7"@.take(3) =~= "arm"@);
    assert("arm"@.take(3) =~= "arm"@);
    assert("riscv64gc"@.take(7) =~= "riscv64"@);
    lemma_names_differ();
    if cpu == "s390x"@ {
        assert(!has_prefix(cpu, "arm"@)) by {
            assert(cpu.take(3)[0] == 's');
        }
        assert(!has_prefix(cpu, "thumb"@)) by {
            assert(cpu.take(5)[0] == 's');
        }
        assert(!has_prefix(cpu, "riscv64"@));
    }
    if cpu == "riscv64gc"@ {
        assert(!has_prefix(cpu, "arm"@)) by {
            assert(cpu.take(3)[0] == 'r');
        }
        assert(!has_prefix(cpu, "thumb"@)) by {
            assert(cpu.take(5)[0] == 'r');
        }
    }
}

} // verus!
