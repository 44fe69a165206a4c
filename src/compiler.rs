//! The configuration side of the code runner: which languages it knows, how
//! each is presented, and the limits it runs code under.

use vstd::prelude::*;
use vstd::hash_map::StringHashMap;
use vstd::hash_set::StringHashSet;
use crate::registry::names;

verus! {

#[verifier::external_type_specification]
#[verifier::external_body]
pub struct ExPathBuf(std::path::PathBuf);

/// A request to run a piece of code.
pub struct CompileRequest {
    pub language: String,
    pub code: String,
    pub input: Option<String>,
    /// In seconds.
    pub timeout: Option<u64>,
}

/// The outcome of a run.
pub struct CompileResponse {
    pub success: bool,
    pub output: Option<String>,
    pub error: Option<String>,
    /// In milliseconds.
    pub execution_time: u64,
}

/// How code of one language is built and run.
pub struct LanguageConfig {
    pub file_extension: String,
    pub compile_command: Option<Vec<String>>,
    pub run_command: Vec<String>,
    pub supports_input: bool,
}

/// A language as it is listed to clients.
pub struct SupportedLanguage {
    pub name: String,
    pub key: String,
    pub file_extension: String,
    pub supports_compilation: bool,
    pub supports_input: bool,
}

/// The keys of the known languages, in listing order.
pub open spec fn language_keys() -> Seq<Seq<char>> {
    seq!["cpp"@, "c"@, "python"@, "java"@, "javascript"@]
}

/// The file extension of a known language.
pub open spec fn extension_of(key: Seq<char>) -> Seq<char> {
    if key == "cpp"@ {
        ".cpp"@
    } else if key == "c"@ {
        ".c"@
    } else if key == "python"@ {
        ".py"@
    } else if key == "java"@ {
        ".java"@
    } else {
        ".js"@
    }
}

/// The build command of a known language, if it is built at all.
pub open spec fn build_command_of(key: Seq<char>) -> Option<Seq<Seq<char>>> {
    if key == "cpp"@ {
        Some(seq!["g++"@, "-o"@])
    } else if key == "c"@ {
        Some(seq!["gcc"@, "-o"@])
    } else if key == "java"@ {
        Some(seq!["javac"@])
    } else {
        None
    }
}

/// The run command of a known language; empty where the built binary runs
/// by itself.
pub open spec fn run_command_of(key: Seq<char>) -> Seq<Seq<char>> {
    if key == "python"@ {
        seq!["python3"@]
    } else if key == "java"@ {
        seq!["java"@]
    } else if key == "javascript"@ {
        seq!["node"@]
    } else {
        Seq::empty()
    }
}

/// The display name of a language key; an unknown key is its own name.
pub open spec fn display_name_of(key: Seq<char>) -> Seq<char> {
    if key == "cpp"@ {
        "C++"@
    } else if key == "c"@ {
        "C"@
    } else if key == "python"@ {
        "Python"@
    } else if key == "java"@ {
        "Java"@
    } else if key == "javascript"@ {
        "JavaScript"@
    } else {
        key
    }
}

/// Whether `cfg` is the configuration of the known language `key`.
pub open spec fn configures(cfg: LanguageConfig, key: Seq<char>) -> bool {
    &&& cfg.file_extension@ == extension_of(key)
    &&& match cfg.compile_command {
        Some(c) => build_command_of(key) == Some(names(c@)),
        None => build_command_of(key) is None,
    }
    &&& names(cfg.run_command@) == run_command_of(key)
    &&& cfg.supports_input
}

/// Whether `m` holds exactly the known languages, each with its configuration.
pub open spec fn is_language_table(m: Map<Seq<char>, LanguageConfig>) -> bool {
    &&& forall|k: Seq<char>| #[trigger] m.contains_key(k) <==> language_keys().contains(k)
    &&& forall|k: Seq<char>| #[trigger] m.contains_key(k) ==> configures(m[k], k)
}

proof fn lemma_language_keys_distinct()
    ensures
        "cpp"@.len() == 3,
        "c"@.len() == 1,
        "python"@.len() == 6,
        "java"@.len() == 4,
        "javascript"@.len() == 10,
{
    reveal_strlit("cpp");
    reveal_strlit("c");
    reveal_strlit("python");
    reveal_strlit("java");
    reveal_strlit("javascript");
}

fn words1(a: &str) -> (r: Vec<String>)
    ensures
        names(r@) == seq![a@],
{
    let mut r: Vec<String> = Vec::new();
    r.push(a.to_owned());
    proof {
        assert(names(r@) =~= seq![a@]);
    }
    r
}

fn words2(a: &str, b: &str) -> (r: Vec<String>)
    ensures
        names(r@) == seq![a@, b@],
{
    let mut r: Vec<String> = Vec::new();
    r.push(a.to_owned());
    r.push(b.to_owned());
    proof {
        assert(names(r@) =~= seq![a@, b@]);
    }
    r
}

fn config(ext: &str, build: Option<Vec<String>>, run: Vec<String>) -> (r: LanguageConfig)
    ensures
        r.file_extension@ == ext@,
        r.compile_command == build,
        r.run_command == run,
        r.supports_input,
{
    LanguageConfig { file_extension: ext.to_owned(), compile_command: build, run_command: run, supports_input: true }
}

impl LanguageConfig {
    /// The languages the runner knows, by key.
    pub fn get_supported_languages() -> (r: StringHashMap<LanguageConfig>)
        ensures
            is_language_table(r@),
    {
        proof {
            lemma_language_keys_distinct();
        }
        let mut languages: StringHashMap<LanguageConfig> = StringHashMap::new();
        let no_words: Vec<String> = Vec::new();
        proof {
            assert(names(no_words@) =~= Seq::<Seq<char>>::empty());
        }
        languages.insert("cpp".to_owned(), config(".cpp", Some(words2("g++", "-o")), no_words));
        proof {
            assert(configures(languages@["cpp"@], "cpp"@));
        }
        let no_words: Vec<String> = Vec::new();
        proof {
            assert(names(no_words@) =~= Seq::<Seq<char>>::empty());
        }
        languages.insert("c".to_owned(), config(".c", Some(words2("gcc", "-o")), no_words));
        proof {
            assert(configures(languages@["c"@], "c"@));
            assert(configures(languages@["cpp"@], "cpp"@));
        }
        languages.insert("python".to_owned(), config(".py", None, words1("python3")));
        proof {
            assert(configures(languages@["python"@], "python"@));
            assert(configures(languages@["c"@], "c"@));
            assert(configures(languages@["cpp"@], "cpp"@));
        }
        languages.insert("java".to_owned(), config(".java", Some(words1("javac")), words1("java")));
        proof {
            assert(configures(languages@["java"@], "java"@));
            assert(configures(languages@["python"@], "python"@));
            assert(configures(languages@["c"@], "c"@));
            assert(configures(languages@["cpp"@], "cpp"@));
        }
        languages.insert("javascript".to_owned(), config(".js", None, words1("node")));
        proof {
            let m = languages@;
            assert(configures(m["javascript"@], "javascript"@));
            assert(configures(m["java"@], "java"@));
            assert(configures(m["python"@], "python"@));
            assert(configures(m["c"@], "c"@));
            assert(configures(m["cpp"@], "cpp"@));
            assert forall|k: Seq<char>| #[trigger] m.contains_key(k) <==> language_keys().contains(k) by {
                if m.contains_key(k) {
                    if k == "cpp"@ {
                        assert(language_keys()[0] == k);
                    } else if k == "c"@ {
                        assert(language_keys()[1] == k);
                    } else if k == "python"@ {
                        assert(language_keys()[2] == k);
                    } else if k == "java"@ {
                        assert(language_keys()[3] == k);
                    } else {
                        assert(language_keys()[4] == k);
                    }
                }
            }
        }
        languages
    }

    /// How the language `key` with configuration `config` is listed.
    pub fn to_supported_language(key: &str, config: &LanguageConfig) -> (r: SupportedLanguage)
        ensures
            r.name@ == display_name_of(key@),
            r.key@ == key@,
            r.file_extension@ == config.file_extension@,
            r.supports_compilation == config.compile_command is Some,
            r.supports_input == config.supports_input,
    {
        SupportedLanguage {
            name: display_name(key),
            key: key.to_owned(),
            file_extension: config.file_extension.clone(),
            supports_compilation: config.compile_command.is_some(),
            supports_input: config.supports_input,
        }
    }
}

fn display_name(key: &str) -> (r: String)
    ensures
        r@ == display_name_of(key@),
{
    let k = key.to_owned();
    if k == "cpp".to_owned() {
        "C++".to_owned()
    } else if k == "c".to_owned() {
        "C".to_owned()
    } else if k == "python".to_owned() {
        "Python".to_owned()
    } else if k == "java".to_owned() {
        "Java".to_owned()
    } else if k == "javascript".to_owned() {
        "JavaScript".to_owned()
    } else {
        k
    }
}

/// The limits that code runs under.
pub struct SecurityConfig {
    /// In seconds.
    pub max_execution_time: u64,
    /// In bytes.
    pub max_output_size: usize,
    /// In bytes.
    pub max_code_size: usize,
    pub forbidden_patterns: StringHashSet,
}

/// The patterns that code may not contain, ignoring case.
pub open spec fn default_forbidden_patterns() -> Set<Seq<char>> {
    set![
        "system("@,
        "exec("@,
        "eval("@,
        "import os"@,
        "import subprocess"@,
        "__import__"@,
        "open("@,
        "file("@,
        "#include <fstream>"@,
        "#include <cstdlib>"@,
        "Runtime.getRuntime()"@,
        "ProcessBuilder"@,
        "System.exit"@,
    ]
}

impl Default for SecurityConfig {
    fn default() -> (r: Self)
        ensures
            r.max_execution_time == 10,
            r.max_output_size == 1024 * 1024,
            r.max_code_size == 10 * 1024,
            r.forbidden_patterns@ == default_forbidden_patterns(),
    {
        let mut forbidden_patterns = StringHashSet::new();
        forbidden_patterns.insert("system(".to_owned());
        forbidden_patterns.insert("exec(".to_owned());
        forbidden_patterns.insert("eval(".to_owned());
        forbidden_patterns.insert("import os".to_owned());
        forbidden_patterns.insert("import subprocess".to_owned());
        forbidden_patterns.insert("__import__".to_owned());
        forbidden_patterns.insert("open(".to_owned());
        forbidden_patterns.insert("file(".to_owned());
        forbidden_patterns.insert("#include <fstream>".to_owned());
        forbidden_patterns.insert("#include <cstdlib>".to_owned());
        forbidden_patterns.insert("Runtime.getRuntime()".to_owned());
        forbidden_patterns.insert("ProcessBuilder".to_owned());
        forbidden_patterns.insert("System.exit".to_owned());
        proof {
            assert(forbidden_patterns@ =~= default_forbidden_patterns());
        }
        SecurityConfig { max_execution_time: 10, max_output_size: 1024 * 1024, max_code_size: 10 * 1024, forbidden_patterns }
    }
}

impl SecurityConfig {
    /// The time a run may take, in seconds.
    pub fn get_execution_timeout(&self) -> (r: u64)
        ensures
            r == self.max_execution_time,
    {
        self.max_execution_time
    }

    /// The whole environment a run sees.
    pub fn sanitize_environment() -> (r: Vec<(String, String)>)
        ensures
            r@.len() == 3,
            r@[0].0@ == "PATH"@ && r@[0].1@ == "/usr/local/bin:/usr/bin:/bin"@,
            r@[1].0@ == "HOME"@ && r@[1].1@ == "/tmp"@,
            r@[2].0@ == "USER"@ && r@[2].1@ == "compiler"@,
    {
        let mut r: Vec<(String, String)> = Vec::new();
        r.push(("PATH".to_owned(), "/usr/local/bin:/usr/bin:/bin".to_owned()));
        r.push(("HOME".to_owned(), "/tmp".to_owned()));
        r.push(("USER".to_owned(), "compiler".to_owned()));
        r
    }
}

/// The code runner's settings: its languages, the directory its runs work
/// in, and its limits.
#[allow(dead_code)]
pub struct CompilerService {
    languages: StringHashMap<LanguageConfig>,
    temp_dir: std::path::PathBuf,
    security_config: SecurityConfig,
}

impl CompilerService {
    pub closed spec fn wf(&self) -> bool {
        is_language_table(self.languages@)
    }

    /// A runner that works under `temp_dir`, a directory that the caller
    /// made, with every known language and the default limits.
    pub fn with_temp_dir(temp_dir: std::path::PathBuf) -> (r: Self)
        ensures
            r.wf(),
    {
        CompilerService {
            languages: LanguageConfig::get_supported_languages(),
            temp_dir,
            security_config: SecurityConfig::default(),
        }
    }

    /// The known languages as they are listed, in the order of
    /// `language_keys`.
    pub fn get_supported_languages(&self) -> (r: Vec<SupportedLanguage>)
        requires
            self.wf(),
        ensures
            r@.len() == language_keys().len(),
            forall|i: int| 0 <= i < r@.len() ==> {
                &&& (#[trigger] r@[i]).key@ == language_keys()[i]
                &&& r@[i].name@ == display_name_of(language_keys()[i])
                &&& r@[i].file_extension@ == extension_of(language_keys()[i])
                &&& r@[i].supports_compilation == build_command_of(language_keys()[i]) is Some
                &&& r@[i].supports_input
            },
    {
        let mut keys: Vec<&str> = Vec::new();
        keys.push("cpp");
        keys.push("c");
        keys.push("python");
        keys.push("java");
        keys.push("javascript");
        proof {
            assert(keys@.map_values(|k: &str| k@) =~= language_keys());
        }
        let mut r: Vec<SupportedLanguage> = Vec::new();
        let mut i: usize = 0;
        while i < keys.len()
            invariant
                self.wf(),
                keys@.map_values(|k: &str| k@) == language_keys(),
                i <= keys.len(),
                r@.len() == i,
                forall|j: int| 0 <= j < i ==> {
                    &&& (#[trigger] r@[j]).key@ == language_keys()[j]
                    &&& r@[j].name@ == display_name_of(language_keys()[j])
                    &&& r@[j].file_extension@ == extension_of(language_keys()[j])
                    &&& r@[j].supports_compilation == build_command_of(language_keys()[j]) is Some
                    &&& r@[j].supports_input
                },
            decreases keys.len() - i,
        {
            let key = keys[i];
            proof {
                assert(key@ == language_keys()[i as int]);
                assert(language_keys().contains(key@));
            }
            match self.languages.get(key) {
                Some(cfg) => {
                    r.push(LanguageConfig::to_supported_language(key, cfg));
                },
                None => {},
            }
            i += 1;
        }
        r
    }
}

} // verus!
