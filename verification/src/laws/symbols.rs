//! What becomes of debug symbols.
use crate::arch::debian_triple;
use crate::assets::{debug_target, normalized_target, AssetKind, AssetView, IsBuilt, SourceView};
use crate::config::DebugSymbols;
use crate::config::{BuildEnvironment, PackageConfig};
use crate::debuginfo::{all_started, beside_linker, command_for_target, debug_assets, debug_path, elf_build_ids, exists_in, first_id, hex, hex_byte, in_usr_bin, is_plan, next_command, step, with_stripped, BuiltBinary, DebugFileView, JobView, RunResult, StageView, StripPlan};
use crate::parse::cargo::CargoConfig;
use crate::parse::manifest::CompressDebugSymbols;
use crate::paths::{file_name, file_stem, parent, path_join, same_path, with_file_name};
use crate::text::{decimal, has_prefix};
use vstd::prelude::*;

verus! {

// ---------------------------------------------------------------------------
// Tools
// ---------------------------------------------------------------------------
/// The text at the keys, if there is one.
pub open spec fn setting(config: Map<Seq<Seq<char>>, Seq<char>>, keys: Seq<Seq<char>>) -> Option<
    Seq<char>,
> {
    if config.contains_key(keys) {
        Some(config[keys])
    } else {
        None
    }
}

/// Which tool is used for a target: the one that the configuration of Cargo names, else the one beside
/// the linker that it names, else the one of the system. The last two have to exist.
pub proof fn law_tool(
    config: Map<Seq<Seq<char>>, Seq<char>>,
    command: Seq<char>,
    triple: Seq<char>,
    existing: Seq<Seq<char>>,
)
    ensures
        ({
            let named = setting(config, seq!["target"@, triple, command]);
            let at_path = setting(config, seq!["target"@, triple, command, "path"@]);
            let linker = setting(config, seq!["target"@, triple, "linker"@]);
            let system = "/usr/bin/"@ + debian_triple(triple) + "-"@ + command;
            let has_system = exists|i: int|
                0 <= i < existing.len() && same_path(#[trigger] existing[i], system);
            let r = command_for_target(Some(config), command, triple, existing);
            let plain = command_for_target(None, command, triple, existing);
            &&& named is Some ==> r == named
            &&& named is None && at_path is Some ==> r == at_path
            &&& named is None && at_path is None && linker is None ==> r == plain
            &&& plain == if has_system {
                Some(system)
            } else {
                None
            }
            &&& named is None && at_path is None && linker is Some && parent(linker->0) is None ==> r
                == plain
            &&& named is None && at_path is None && linker is Some && parent(linker->0) is Some
                && file_name(linker->0) is Some && !exists_in(
                existing,
                beside_linker(linker->0, command, triple),
            ) ==> r == plain
            &&& named is None && at_path is None && linker is Some && parent(linker->0) is Some
                && file_name(linker->0) is Some && exists_in(
                existing,
                beside_linker(linker->0, command, triple),
            ) ==> r == Some(beside_linker(linker->0, command, triple))
        }),
{
    let system = in_usr_bin(command, triple);
    if exists_in(existing, system) {
        let i = choose|i: int| 0 <= i < existing.len() && same_path(#[trigger] existing[i], system);
        assert(same_path(existing[i], "/usr/bin/"@ + debian_triple(triple) + "-"@ + command));
    }
}

/// A tool beside a linker has the name of the target in front if the linker has it.
pub proof fn law_beside_linker(linker: Seq<char>, command: Seq<char>, triple: Seq<char>)
    requires
        file_name(linker) is Some,
    ensures
        has_prefix(file_name(linker)->0, debian_triple(triple)) ==> beside_linker(
            linker,
            command,
            triple,
        ) == with_file_name(linker, debian_triple(triple) + "-"@ + command),
        !has_prefix(file_name(linker)->0, debian_triple(triple)) ==> beside_linker(
            linker,
            command,
            triple,
        ) == with_file_name(linker, command),
{
}

/// Without a target the tools of the system are used. What is planned follows what was decided on debug
/// symbols.
pub proof fn law_plan(
    plan: StripPlan,
    config: BuildEnvironment,
    package: PackageConfig,
    asked: bool,
    cargo: Option<CargoConfig>,
    existing: Seq<Seq<char>>,
)
    requires
        is_plan(plan, config, package, None, asked, cargo, existing),
    ensures
        plan.strip_cmd@ == "strip"@,
        plan.objcopy_cmd@ == "objcopy"@,
        plan.separate <==> config.debug_symbols is Separate,
        config.debug_symbols matches DebugSymbols::Separate { compress, .. } ==> plan.compress
            == compress,
        plan.reproducible == config.reproducible,
        plan.lib_dir@ == package.lib_dir(config.triple()),
        plan.temp_dir@ == path_join(
            path_join(config.target_dir@, "debian"@),
            package.cargo_crate_name@,
        ),
{
}

// ---------------------------------------------------------------------------
// Paths of debug files
// ---------------------------------------------------------------------------
/// The value of a hexadecimal digit.
pub open spec fn nibble(c: char) -> int {
    if '0' <= c <= '9' {
        c as int - '0' as int
    } else {
        c as int - 'a' as int + 10
    }
}

/// Bytes are written with two hexadecimal digits each, which give their values, in lower case.
pub proof fn law_hex(bytes: Seq<u8>)
    ensures
        hex(bytes).len() == 2 * bytes.len(),
        forall|i: int|
            0 <= i < bytes.len() ==> nibble(hex(bytes)[2 * i]) * 16 + nibble(hex(bytes)[2 * i + 1])
                == #[trigger] bytes[i],
        forall|k: int|
            0 <= k < hex(bytes).len() ==> '0' <= #[trigger] hex(bytes)[k] <= '9' || 'a' <= hex(
                bytes,
            )[k] <= 'f',
    decreases bytes.len(),
{
    if bytes.len() > 0 {
        let t = bytes.drop_last();
        law_hex(t);
        let b = bytes.last();
        let n = t.len() as int;
        let h = hex(bytes);
        assert(h =~= hex(t) + hex_byte(b));
        assert(h[2 * n] == hex_byte(b)[0] && h[2 * n + 1] == hex_byte(b)[1]);
        assert forall|i: int| 0 <= i < bytes.len() implies nibble(h[2 * i]) * 16 + nibble(
            h[2 * i + 1],
        ) == #[trigger] bytes[i] by {
            if i < n {
                assert(t[i] == bytes[i]);
                assert(h[2 * i] == hex(t)[2 * i] && h[2 * i + 1] == hex(t)[2 * i + 1]);
            } else {
                assert(i == n);
            }
        }
        assert forall|k: int| 0 <= k < h.len() implies '0' <= #[trigger] h[k] <= '9' || 'a' <= h[k]
            <= 'f' by {
            if k < 2 * n {
                assert(h[k] == hex(t)[k]);
            }
        }
    }
}

/// The identity of a binary is the first that its notes give and that is not empty.
pub proof fn law_first_id(ids: Seq<Option<Seq<u8>>>, i: int)
    requires
        0 <= i < ids.len(),
        ids[i] is Some && ids[i]->0.len() > 0,
        forall|k: int| 0 <= k < i ==> ((#[trigger] ids[k]) is Some ==> ids[k]->0.len() == 0),
    ensures
        first_id(ids) == ids[i],
    decreases i,
{
    if i > 0 {
        assert(!(ids[0] is Some && ids[0]->0.len() > 0));
        let t = ids.skip(1);
        assert(t[i - 1] == ids[i]);
        assert forall|k: int| 0 <= k < i - 1 && (#[trigger] t[k]) is Some implies t[k]->0.len() == 0 by {
            assert(t[k] == ids[k + 1]);
        }
        law_first_id(t, i - 1);
    }
}

/// Debug symbols are found by the identity of the binary: its first byte names a directory, the others
/// the file. Without an identity they are found by the path of the binary.
pub proof fn law_debug_path(file: Seq<u8>, target: Seq<char>, lib_dir: Seq<char>)
    ensures
        elf_build_ids(file) matches Some(ids) ==> (first_id(ids) matches Some(id) ==> debug_path(
            file,
            target,
            lib_dir,
        ) == path_join(
            lib_dir,
            "debug/.build-id/"@ + hex(seq![id[0]]) + "/"@ + hex(id.skip(1)) + ".debug"@,
        )),
        (elf_build_ids(file) is None || first_id(elf_build_ids(file)->0) is None) ==> debug_path(
            file,
            target,
            lib_dir,
        ) == debug_target(target, lib_dir),
{
    if elf_build_ids(file) is Some {
        if let Some(id) = first_id(elf_build_ids(file)->0) {
            let one = seq![id[0]];
            reveal_with_fuel(hex, 2);
            assert(one.drop_last() =~= Seq::<u8>::empty());
            assert(hex(one) =~= hex_byte(id[0]));
        }
    }
}

// ---------------------------------------------------------------------------
// Stripping
// ---------------------------------------------------------------------------
/// A binary is stripped into a file of its own, and its symbols are copied into another; the binary that
/// was built is only read. `strip` gets the output behind `-o`, and the input last.
pub proof fn law_commands(plan: StripPlan, job: JobView, c: crate::debuginfo::CommandView)
    requires
        next_command(plan, job) == Some(c),
        job.wf(),
    ensures
        job.stage is Strip || job.stage is StripAgain ==> c.program == plan.strip_cmd@
            && c.args.len() >= 3 && c.args.last() == job.path && c.args[c.args.len() - 2] == job.temp
            && c.args[c.args.len() - 3] == "-o"@,
        job.stage is Strip ==> c.args[0] == "--strip-unneeded"@ && c.stale == Some(job.temp),
        job.stage matches StageView::Separate(d) ==> c.program == plan.objcopy_cmd@ && c.args[0]
            == "--only-keep-debug"@ && c.args.last() == d.temp && c.args[c.args.len() - 2]
            == job.path && c.stale == Some(d.temp),
        job.stage matches StageView::Link(d) ==> c.program == plan.objcopy_cmd@ && c.args[0]
            == "--add-gnu-debuglink"@ && Some(c.args[1]) == file_name(d.temp) && c.args.last()
            == job.temp && c.args.len() == 3 && c.dir == parent(d.temp),
{
    if job.stage is Separate {
        let n = c.args.len();
        assert(c.args[n - 2] == job.path);
    }
}

/// Symbols are compressed if that was wanted, as `objcopy` calls it.
pub proof fn law_compression_argument(plan: StripPlan, job: JobView, d: DebugFileView)
    requires
        job.stage == StageView::Separate(d),
    ensures
        ({
            let args = next_command(plan, job)->0.args;
            let n = if plan.reproducible {
                2int
            } else {
                1
            };
            &&& plan.reproducible ==> args[1] == "--enable-deterministic-archives"@
            &&& plan.compress == CompressDebugSymbols::No ==> args.len() == n + 2
            &&& plan.compress == CompressDebugSymbols::Zstd ==> args.len() == n + 3 && args[n]
                == "--compress-debug-sections=zstd"@
            &&& plan.compress == CompressDebugSymbols::Zlib || plan.compress
                == CompressDebugSymbols::Auto ==> args.len() == n + 3 && args[n]
                == "--compress-debug-sections=zlib"@
        }),
{
}

/// What follows each command. If `strip` fails it is tried once more, with fewer arguments; any other
/// failure is one of the whole. Symbols that are to be separated are: then the binary is linked to them.
pub proof fn law_steps(
    plan: StripPlan,
    job: JobView,
    result: RunResult,
    exists: bool,
    file: Seq<u8>,
)
    ensures
        ({
            let next = step(plan, job, result, exists, file).stage;
            let target = debug_path(file, job.target_path, plan.lib_dir@);
            let good = result is Succeeded && exists;
            &&& (job.stage is Strip || job.stage is StripAgain) && good && !plan.separate ==> next
                == Ok::<StageView, crate::error::ErrorView>(StageView::Done(None))
            &&& (job.stage is Strip || job.stage is StripAgain) && good && plan.separate
                && file_name(target) is Some ==> (next matches Ok(StageView::Separate(d)) && d.target
                == target && d.temp == with_file_name(job.temp, file_name(target)->0))
            &&& job.stage is Strip && !good && result !is NotFound ==> (next matches Ok(s)
                && s is StripAgain)
            &&& job.stage is Strip && result is NotFound ==> next is Err
            &&& job.stage is StripAgain && !good ==> next is Err
            &&& job.stage matches StageView::Separate(d) ==> (result is Succeeded && file_name(
                d.temp,
            ) is Some && parent(d.temp) is Some ==> next == Ok::<
                StageView,
                crate::error::ErrorView,
            >(StageView::Link(d))) && (result !is Succeeded ==> next is Err)
            &&& job.stage matches StageView::Link(d) ==> if result is Succeeded {
                next == Ok::<StageView, crate::error::ErrorView>(StageView::Done(Some(d)))
            } else {
                next is Err
            }
        }),
{
}

proof fn lemma_started(
    plan: StripPlan,
    assets: Seq<AssetView>,
    places: Seq<int>,
    binaries: Seq<BuiltBinary>,
) -> (at: Seq<int>)
    requires
        all_started(plan, assets, places, binaries).error is None,
    ensures
        at.len() == all_started(plan, assets, places, binaries).jobs.len(),
        forall|j: int|
            0 <= j < at.len() ==> 0 <= #[trigger] at[j] < places.len() && is_job_for(
                plan,
                assets[places[at[j]]],
                places[at[j]],
                at[j],
                all_started(plan, assets, places, binaries).jobs[j],
            ),
        forall|k: int|
            0 <= k < places.len() && (#[trigger] assets[places[k]]).source is Path
                ==> binaries[k].exists && at.contains(k),
    decreases places.len(),
{
    if places.len() == 0 {
        Seq::empty()
    } else {
        let t = places.drop_last();
        let n = places.len() - 1;
        let before = lemma_started(plan, assets, t, binaries);
        let old = all_started(plan, assets, t, binaries);
        let new = all_started(plan, assets, places, binaries);
        let r = if new.jobs.len() > old.jobs.len() {
            before.push(n)
        } else {
            before
        };
        assert forall|j: int| 0 <= j < r.len() implies 0 <= #[trigger] r[j] < places.len()
            && is_job_for(plan, assets[places[r[j]]], places[r[j]], r[j], new.jobs[j]) by {
            if j < before.len() {
                assert(before[j] == r[j]);
                assert(t[r[j]] == places[r[j]]);
                assert(new.jobs[j] == old.jobs[j]);
            }
        }
        assert forall|k: int| 0 <= k < places.len() && (#[trigger] assets[places[k]]).source is Path implies binaries[k].exists
            && r.contains(k) by {
            if k < n {
                assert(t[k] == places[k]);
                assert(assets[t[k]].source is Path);
                let j = choose|j: int| 0 <= j < before.len() && before[j] == k;
                assert(r[j] == k);
            } else {
                assert(r[r.len() - 1] == n);
            }
        }
        r
    }
}

/// The job is for the file: it is read where it was built, and goes into a file of its own.
pub open spec fn is_job_for(
    plan: StripPlan,
    a: AssetView,
    place: int,
    index: int,
    job: JobView,
) -> bool {
    &&& a.source == SourceView::Path(job.path)
    &&& job.place == place
    &&& job.target_path == a.c.target_path
    &&& job.chmod == a.c.chmod
    &&& job.stage is Strip
    &&& file_stem(job.path) is Some
    &&& job.temp == path_join(
        plan.temp_dir@,
        file_stem(job.path)->0 + ".stripped-"@ + decimal(index as nat) + ".tmp"@,
    )
}

/// Every binary that has a file is stripped, each once; one that does not exist is an error. `at` are
/// the places of the binaries that the jobs are for.
pub proof fn law_every_binary_is_stripped(
    plan: StripPlan,
    assets: Seq<AssetView>,
    places: Seq<int>,
    binaries: Seq<BuiltBinary>,
) -> (at: Seq<int>)
    requires
        all_started(plan, assets, places, binaries).error is None,
    ensures
        at.len() == all_started(plan, assets, places, binaries).jobs.len(),
        forall|j: int|
            0 <= j < at.len() ==> 0 <= #[trigger] at[j] < places.len() && is_job_for(
                plan,
                assets[places[at[j]]],
                places[at[j]],
                at[j],
                all_started(plan, assets, places, binaries).jobs[j],
            ),
        forall|k: int|
            0 <= k < places.len() && (#[trigger] assets[places[k]]).source is Path
                ==> binaries[k].exists && at.contains(k),
{
    lemma_started(plan, assets, places, binaries)
}

/// Nothing fails if all binaries exist and have names.
pub proof fn law_stripping_starts(
    plan: StripPlan,
    assets: Seq<AssetView>,
    places: Seq<int>,
    binaries: Seq<BuiltBinary>,
)
    requires
        places.len() <= binaries.len(),
        forall|k: int|
            0 <= k < places.len() ==> ((#[trigger] assets[places[k]]).source matches SourceView::Path(
                path,
            ) ==> binaries[k].exists && file_stem(path) is Some),
    ensures
        all_started(plan, assets, places, binaries).error is None,
    decreases places.len(),
{
    if places.len() > 0 {
        let t = places.drop_last();
        let n = places.len() - 1;
        assert forall|k: int| 0 <= k < t.len() implies ((
        #[trigger] assets[t[k]]).source matches SourceView::Path(path) ==> binaries[k].exists
            && file_stem(path) is Some) by {
            assert(t[k] == places[k]);
            assert(assets[places[k]].source matches SourceView::Path(path) ==> binaries[k].exists
                && file_stem(path) is Some);
        }
        law_stripping_starts(plan, assets, t, binaries);
        assert(assets[places[n]].source matches SourceView::Path(path) ==> binaries[n].exists
            && file_stem(path) is Some);
    }
}

/// The file that is packaged is the stripped one, wherever there is a job for it.
pub proof fn law_stripped_files(assets: Seq<AssetView>, jobs: Seq<JobView>, j: int)
    requires
        0 <= j < jobs.len(),
        forall|k: int| 0 <= k < jobs.len() ==> 0 <= (#[trigger] jobs[k]).place < assets.len(),
        forall|k: int| j < k < jobs.len() ==> (#[trigger] jobs[k]).place != jobs[j].place,
    ensures
        with_stripped(assets, jobs)[jobs[j].place].source == SourceView::Path(jobs[j].temp),
    decreases jobs.len(),
{
    let t = jobs.drop_last();
    crate::debuginfo::law_stripping_keeps_files(assets, t);
    if j < jobs.len() - 1 {
        assert forall|k: int| 0 <= k < t.len() implies 0 <= (#[trigger] t[k]).place < assets.len() by {
            assert(t[k] == jobs[k]);
        }
        assert forall|k: int| j < k < t.len() implies (#[trigger] t[k]).place != t[j].place by {
            assert(t[k] == jobs[k]);
        }
        law_stripped_files(assets, t, j);
        assert(jobs[jobs.len() - 1].place != jobs[j].place);
    }
}

/// The debug file of each binary that has one is packaged, where debuggers look for it; it cannot be
/// run.
pub proof fn law_debug_files(jobs: Seq<JobView>, compress: bool, j: int, d: DebugFileView)
    requires
        0 <= j < jobs.len(),
        jobs[j].stage == StageView::Done(Some(d)),
    ensures
        exists|k: int|
            0 <= k < debug_assets(jobs, compress).len() && is_debug_file_of(
                #[trigger] debug_assets(jobs, compress)[k],
                jobs[j],
                d,
            ),
        debug_assets(jobs, compress).len() <= jobs.len(),
    decreases jobs.len(),
{
    lemma_debug_count(jobs, compress);
    let t = jobs.drop_last();
    let r = debug_assets(jobs, compress);
    let before = debug_assets(t, compress);
    if j < jobs.len() - 1 {
        law_debug_files(t, compress, j, d);
        let k = choose|k: int|
            0 <= k < before.len() && is_debug_file_of(#[trigger] before[k], t[j], d);
        assert(r[k] == before[k]);
        assert(is_debug_file_of(r[k], jobs[j], d));
    } else {
        if let Some(m) = jobs[j].chmod {
            assert((0o666 & m) & 0o111 == 0) by (bit_vector);
            assert(0o666 & m == m & 0o666) by (bit_vector);
        }
        assert(is_debug_file_of(r[before.len() as int], jobs[j], d));
    }
}

proof fn lemma_debug_count(jobs: Seq<JobView>, compress: bool)
    ensures
        debug_assets(jobs, compress).len() <= jobs.len(),
    decreases jobs.len(),
{
    if jobs.len() > 0 {
        lemma_debug_count(jobs.drop_last(), compress);
    }
}

/// The file holds the debug symbols that the job has separated.
pub open spec fn is_debug_file_of(a: AssetView, job: JobView, d: DebugFileView) -> bool {
    &&& a.source == SourceView::Path(d.temp)
    &&& a.c.target_path == normalized_target(d.target, Some(d.temp))
    &&& a.c.asset_kind == AssetKind::SeparateDebugSymbols
    &&& a.c.is_built == IsBuilt::No
    &&& job.chmod is None ==> a.c.chmod is None
    &&& job.chmod matches Some(m) ==> (a.c.chmod matches Some(n) && n & 0o111 == 0 && n == m
        & 0o666)
}

} // verus!
