//! The configuration files of Cargo.
use crate::error::{CDResult, CargoDebError, Cause, ErrorView};
use crate::paths::{join, law_parent_components, parent, parent_of, path_join, replace_file_name, with_file_name};
use vstd::prelude::*;

verus! {

// ---------------------------------------------------------------------------
// TOML
// ---------------------------------------------------------------------------
/// A value of TOML.
#[verifier::external_type_specification]
#[verifier::external_body]
pub struct ExTomlValue(toml::Value);

/// An error of reading TOML.
#[verifier::external_type_specification]
#[verifier::external_body]
pub struct ExTomlError(toml::de::Error);

/// The texts that a value holds, each under the keys that lead to it.
pub uninterp spec fn value_texts(v: toml::Value) -> Map<Seq<Seq<char>>, Seq<char>>;

/// The texts of a document of TOML, unless it is not one.
pub uninterp spec fn toml_texts(input: Seq<char>) -> Option<Map<Seq<Seq<char>>, Seq<char>>>;

/// The texts below a key.
pub open spec fn texts_below(m: Map<Seq<Seq<char>>, Seq<char>>, key: Seq<char>) -> Map<
    Seq<Seq<char>>,
    Seq<char>,
> {
    Map::new(
        |p: Seq<Seq<char>>| m.contains_key(seq![key] + p),
        |p: Seq<Seq<char>>| m[seq![key] + p],
    )
}

/// `toml::from_str` reads a document: what it holds depends on the text alone.
#[verifier::external_body]
fn read_toml(input: &str) -> (r: Result<toml::Value, toml::de::Error>)
    ensures
        match toml_texts(input@) {
            Some(m) => r is Ok && value_texts(r->Ok_0) == m,
            None => r is Err,
        },
{
    toml::from_str(input)
}

/// `toml::Value::get` gives the value under a key of a table. Of anything else, and of a table
/// without the key, there is no text below the key.
#[verifier::external_body]
fn value_under<'a>(v: &'a toml::Value, key: &str) -> (r: Option<&'a toml::Value>)
    ensures
        r is Some ==> value_texts(*r->0) == texts_below(value_texts(*v), key@),
        r is None ==> forall|p: Seq<Seq<char>>|
            p.len() > 0 && p[0] == key@ ==> !#[trigger] value_texts(*v).contains_key(p),
{
    v.get(key)
}

/// `toml::Value::as_str` gives the text that a value is.
#[verifier::external_body]
fn text_of(v: &toml::Value) -> (r: Option<&str>)
    ensures
        match r {
            Some(s) => value_texts(*v).contains_key(Seq::empty()) && value_texts(*v)[Seq::empty()]
                == s@,
            None => !value_texts(*v).contains_key(Seq::empty()),
        },
{
    v.as_str()
}

/// The message of `toml::de::Error`.
#[verifier::external_body]
fn describe(e: &toml::de::Error) -> String {
    e.to_string()
}

// ---------------------------------------------------------------------------
// The configuration
// ---------------------------------------------------------------------------
/// A configuration file of Cargo.
#[derive(Debug)]
pub struct CargoConfig {
    pub path: String,
    pub config: toml::Value,
}

/// The text under keys, if there is one.
pub open spec fn text_at(m: Map<Seq<Seq<char>>, Seq<char>>, keys: Seq<Seq<char>>) -> Option<
    Seq<char>,
> {
    if m.contains_key(keys) {
        Some(m[keys])
    } else {
        None
    }
}

/// The command that is set for a target: as a text, or as the path in a table.
pub open spec fn target_command(
    m: Map<Seq<Seq<char>>, Seq<char>>,
    command: Seq<char>,
    triple: Seq<char>,
) -> Option<Seq<char>> {
    match text_at(m, seq!["target"@, triple, command]) {
        Some(s) => Some(s),
        None => text_at(m, seq!["target"@, triple, command, "path"@]),
    }
}

impl CargoConfig {
    /// The texts of the file.
    pub open spec fn texts(self) -> Map<Seq<Seq<char>>, Seq<char>> {
        value_texts(self.config)
    }

    /// The configuration of a file with a content.
    pub fn from_str(input: &str, path: String) -> (r: CDResult<Self>)
        ensures
            match toml_texts(input@) {
                Some(m) => r is Ok && r->Ok_0.texts() == m && r->Ok_0.path == path,
                None => r is Err && r->Err_0.deep_view() is ParseTOML,
            },
    {
        match read_toml(input) {
            Ok(config) => Ok(CargoConfig { path, config }),
            Err(e) => Err(
                CargoDebError::ParseTOML(Cause { message: describe(&e), sources: Vec::new() }),
            ),
        }
    }

    fn target_conf(&self, target_triple: &str) -> (r: Option<&toml::Value>)
        ensures
            match r {
                Some(v) => value_texts(*v) == texts_below(
                    texts_below(self.texts(), "target"@),
                    target_triple@,
                ),
                None => forall|p: Seq<Seq<char>>|
                    p.len() > 1 && p[0] == "target"@ && p[1] == target_triple@
                        ==> !#[trigger] self.texts().contains_key(p),
            },
    {
        let target = match value_under(&self.config, "target") {
            Some(t) => t,
            None => {
                return None;
            },
        };
        let r = value_under(target, target_triple);
        proof {
            if r is None {
                assert forall|p: Seq<Seq<char>>|
                    p.len() > 1 && p[0] == "target"@ && p[1]
                        == target_triple@ implies !#[trigger] self.texts().contains_key(p) by {
                    let q = p.skip(1);
                    assert(p =~= seq!["target"@] + q);
                    assert(q[0] == target_triple@);
                    assert(!value_texts(*target).contains_key(q));
                }
            }
        }
        r
    }

    /// The command that is set for the target.
    pub fn explicit_target_specific_command(&self, command_name: &str, target_triple: &str) -> (r:
        Option<String>)
        ensures
            r.deep_view() == target_command(self.texts(), command_name@, target_triple@),
    {
        let ghost m = self.texts();
        let ghost keys = seq!["target"@, target_triple@, command_name@];
        let ghost deep = seq!["target"@, target_triple@, command_name@, "path"@];
        let conf = match self.target_conf(target_triple) {
            Some(c) => c,
            None => {
                assert(!m.contains_key(keys));
                assert(!m.contains_key(deep));
                return None;
            },
        };
        let ghost below = value_texts(*conf);
        proof {
            lemma_below(m, "target"@, target_triple@, seq![command_name@]);
            lemma_below(m, "target"@, target_triple@, seq![command_name@, "path"@]);
            assert(seq!["target"@, target_triple@] + seq![command_name@] =~= keys);
            assert(seq!["target"@, target_triple@] + seq![command_name@, "path"@] =~= deep);
        }
        let top = match value_under(conf, command_name) {
            Some(t) => t,
            None => {
                assert(!below.contains_key(seq![command_name@]));
                assert(!below.contains_key(seq![command_name@, "path"@]));
                return None;
            },
        };
        let ghost t = value_texts(*top);
        proof {
            assert(seq![command_name@] + Seq::<Seq<char>>::empty() =~= seq![command_name@]);
            assert(seq![command_name@] + seq!["path"@] =~= seq![command_name@, "path"@]);
            assert(t.contains_key(Seq::empty()) == below.contains_key(seq![command_name@]));
            assert(t.contains_key(seq!["path"@]) == below.contains_key(
                seq![command_name@, "path"@],
            ));
        }
        match text_of(top) {
            Some(s) => Some(s.to_owned()),
            None => match value_under(top, "path") {
                Some(p) => {
                    proof {
                        assert(seq!["path"@] + Seq::<Seq<char>>::empty() =~= seq!["path"@]);
                        assert(value_texts(*p).contains_key(Seq::empty()) == t.contains_key(
                            seq!["path"@],
                        ));
                    }
                    match text_of(p) {
                        Some(s) => Some(s.to_owned()),
                        None => None,
                    }
                },
                None => {
                    assert(!t.contains_key(seq!["path"@]));
                    None
                },
            },
        }
    }

    /// Where the configuration was read from.
    pub fn path(&self) -> (r: &str)
        ensures
            r@ == self.path@,
    {
        self.path.as_str()
    }

    /// The linker that is set for the target.
    pub fn explicit_linker_command(&self, target_triple: &str) -> (r: Option<String>)
        ensures
            r.deep_view() == text_at(self.texts(), seq!["target"@, target_triple@, "linker"@]),
    {
        let ghost m = self.texts();
        let ghost keys = seq!["target"@, target_triple@, "linker"@];
        let conf = match self.target_conf(target_triple) {
            Some(c) => c,
            None => {
                assert(!m.contains_key(keys));
                return None;
            },
        };
        let ghost below = value_texts(*conf);
        proof {
            lemma_below(m, "target"@, target_triple@, seq!["linker"@]);
            assert(seq!["target"@, target_triple@] + seq!["linker"@] =~= keys);
        }
        match value_under(conf, "linker") {
            Some(v) => {
                proof {
                    assert(seq!["linker"@] + Seq::<Seq<char>>::empty() =~= seq!["linker"@]);
                    assert(value_texts(*v).contains_key(Seq::empty()) == below.contains_key(
                        seq!["linker"@],
                    ));
                }
                match text_of(v) {
                    Some(s) => Some(s.to_owned()),
                    None => None,
                }
            },
            None => {
                assert(!below.contains_key(seq!["linker"@]));
                None
            },
        }
    }
}

proof fn lemma_below(
    m: Map<Seq<Seq<char>>, Seq<char>>,
    a: Seq<char>,
    b: Seq<char>,
    p: Seq<Seq<char>>,
)
    ensures
        ({
            let below = texts_below(texts_below(m, a), b);
            &&& below.contains_key(p) == m.contains_key(seq![a, b] + p)
            &&& below.contains_key(p) ==> below[p] == m[seq![a, b] + p]
        }),
{
    assert(seq![a] + (seq![b] + p) =~= seq![a, b] + p);
}

// ---------------------------------------------------------------------------
// Where configuration files are
// ---------------------------------------------------------------------------
/// The `.cargo` directories of a directory and of those above it.
pub open spec fn dirs_upwards(dir: Seq<char>) -> Seq<Seq<char>>
    decreases dir.len(),
{
    let here = path_join(dir, ".cargo"@);
    match parent(dir) {
        Some(d) => {
            proof {
                law_parent_components(dir);
            }
            seq![here] + dirs_upwards(d)
        },
        None => seq![here],
    }
}

/// The directories that a configuration file is looked for in, the first one first.
pub open spec fn config_dirs(
    project: Seq<char>,
    cargo_home: Option<Seq<char>>,
    home: Option<Seq<char>>,
) -> Seq<Seq<char>> {
    dirs_upwards(project) + (match cargo_home {
        Some(h) => seq![h],
        None => Seq::empty(),
    }) + (match home {
        Some(h) => seq![path_join(h, ".cargo"@)],
        None => Seq::empty(),
    }) + seq!["/etc/.cargo"@]
}

/// The directories that a configuration file is looked for in, the first one first, for a project,
/// the value of `CARGO_HOME`, and the home directory.
pub fn config_search_dirs(project_path: &str, cargo_home: Option<&String>, home: Option<&String>) -> (r:
    Vec<String>)
    ensures
        r.deep_view() == config_dirs(
            project_path@,
            match cargo_home {
                Some(h) => Some(h@),
                None => None,
            },
            match home {
                Some(h) => Some(h@),
                None => None,
            },
        ),
{
    let mut out: Vec<String> = Vec::new();
    let mut dir = project_path.to_owned();
    let ghost all = dirs_upwards(project_path@);
    assert(out.deep_view() + dirs_upwards(dir@) =~= all);
    loop
        invariant_except_break
            out.deep_view() + dirs_upwards(dir@) == all,
        ensures
            out.deep_view() == all,
        decreases dir@.len(),
    {
        let ghost before = out.deep_view();
        let ghost d = dir@;
        let here = join(dir.as_str(), ".cargo");
        let ghost h = here@;
        out.push(here);
        assert(out.deep_view() =~= before.push(h));
        match parent_of(dir.as_str()) {
            Some(p) => {
                proof {
                    law_parent_components(d);
                    assert(out.deep_view() + dirs_upwards(p@) =~= before + dirs_upwards(d));
                }
                dir = p;
            },
            None => {
                assert(out.deep_view() =~= before + dirs_upwards(d));
                break;
            },
        }
    }
    let ghost o1 = out.deep_view();
    if let Some(h) = cargo_home {
        out.push(h.clone());
    }
    if let Some(h) = home {
        out.push(join(h.as_str(), ".cargo"));
    }
    out.push("/etc/.cargo".to_owned());
    assert(out.deep_view() =~= o1 + (match cargo_home {
        Some(h) => seq![h@],
        None => Seq::<Seq<char>>::empty(),
    }) + (match home {
        Some(h) => seq![path_join(h@, ".cargo"@)],
        None => Seq::<Seq<char>>::empty(),
    }) + seq!["/etc/.cargo"@]);
    out
}

/// The files of a directory that are configurations: the first one that exists is.
pub fn config_files_in(dir_path: &str) -> (r: (String, String))
    ensures
        r.0@ == path_join(dir_path@, "config.toml"@),
        r.1@ == with_file_name(path_join(dir_path@, "config.toml"@), "config"@),
{
    let first = join(dir_path, "config.toml");
    let second = replace_file_name(first.as_str(), "config");
    (first, second)
}

/// What there is at a path: nothing, a text, or a file that cannot be read.
#[derive(Debug)]
pub enum ConfigRead {
    Missing,
    Text(String),
    Failed(Cause),
}

/// What there is at the two paths of configuration files in a directory.
#[derive(Debug)]
pub struct ConfigReads {
    /// `config.toml`
    pub toml: ConfigRead,
    /// `config`
    pub plain: ConfigRead,
}

impl ConfigReads {
    /// Whether there is a configuration file.
    pub open spec fn is_found(self) -> bool {
        !(self.toml is Missing && self.plain is Missing)
    }

    /// What there is of it, and where: `config.toml` goes first.
    pub open spec fn found(self, dir: Seq<char>) -> (Seq<char>, ConfigRead) {
        let path = path_join(dir, "config.toml"@);
        if self.toml is Missing {
            (with_file_name(path, "config"@), self.plain)
        } else {
            (path, self.toml)
        }
    }
}

/// What becomes of a configuration file at a path.
pub open spec fn is_parsed(r: CDResult<Option<CargoConfig>>, path: Seq<char>, read: ConfigRead) -> bool {
    match read {
        ConfigRead::Missing => r == Ok::<Option<CargoConfig>, CargoDebError>(None),
        ConfigRead::Failed(e) => r matches Err(err) && err.deep_view() == ErrorView::Io(
            e.deep_view(),
        ),
        ConfigRead::Text(text) => match toml_texts(text@) {
            Some(m) => r matches Ok(Some(c)) && c.texts() == m && c.path@ == path,
            None => r matches Err(err) && err.deep_view() is ParseTOML,
        },
    }
}

/// The first directory with a configuration file.
pub open spec fn first_found(reads: Seq<ConfigReads>) -> Option<int>
    decreases reads.len(),
{
    if reads.len() == 0 {
        None
    } else if first_found(reads.drop_last()) is Some {
        first_found(reads.drop_last())
    } else if reads.last().is_found() {
        Some(reads.len() - 1)
    } else {
        None
    }
}

proof fn lemma_first_found(reads: Seq<ConfigReads>, k: int)
    requires
        0 <= k < reads.len(),
        first_found(reads.take(k)) is None,
        reads[k].is_found(),
    ensures
        first_found(reads) == Some(k),
    decreases reads.len(),
{
    if k == reads.len() - 1 {
        assert(reads.take(k) =~= reads.drop_last());
    } else {
        assert(reads.drop_last().take(k) =~= reads.take(k));
        lemma_first_found(reads.drop_last(), k);
    }
}

impl CargoConfig {
    /// The configuration nearest to a project, given what there is in each of the directories that
    /// it is looked for in. A file that cannot be read, or is no TOML, ends the search.
    pub fn new(dirs: &Vec<String>, reads: &Vec<ConfigReads>) -> (r: CDResult<Option<Self>>)
        requires
            reads@.len() == dirs@.len(),
        ensures
            match first_found(reads@) {
                Some(k) => {
                    let (path, read) = reads@[k].found(dirs@[k]@);
                    is_parsed(r, path, read)
                },
                None => r == Ok::<Option<CargoConfig>, CargoDebError>(None),
            },
    {
        let mut i: usize = 0;
        assert(reads@.take(0) =~= Seq::<ConfigReads>::empty());
        while i < dirs.len()
            invariant
                i <= dirs@.len() == reads@.len(),
                first_found(reads@.take(i as int)) is None,
            decreases dirs.len() - i,
        {
            let r = Self::try_parse(dirs[i].as_str(), &reads[i]);
            match r {
                Ok(None) => {},
                _ => {
                    proof {
                        lemma_first_found(reads@, i as int);
                    }
                    return r;
                },
            }
            assert(reads@.take(i + 1).drop_last() =~= reads@.take(i as int));
            assert(reads@.take(i + 1).last() == reads@[i as int]);
            i += 1;
        }
        assert(reads@.take(i as int) =~= reads@);
        Ok(None)
    }

    fn try_parse(dir_path: &str, reads: &ConfigReads) -> (r: CDResult<Option<Self>>)
        ensures
            is_parsed(r, reads.found(dir_path@).0, reads.found(dir_path@).1),
            r == Ok::<Option<CargoConfig>, CargoDebError>(None) <==> !reads.is_found(),
    {
        let (first, second) = config_files_in(dir_path);
        let (path, read) = match &reads.toml {
            ConfigRead::Missing => (second, &reads.plain),
            found => (first, found),
        };
        match read {
            ConfigRead::Missing => Ok(None),
            ConfigRead::Failed(e) => Err(CargoDebError::Io(e.clone())),
            ConfigRead::Text(text) => match Self::from_str(text.as_str(), path) {
                Ok(config) => Ok(Some(config)),
                Err(e) => Err(e),
            },
        }
    }
}

} // verus!
