use vstd::prelude::*;

use sha2::Digest;

use crate::file_names::file_extension;
use crate::text::{chars_eq_str, chars_of, copy_chars, lowercase_chars, owned, starts_with_str, to_ascii_lowercase, trim, trim_chars};

verus! {

/// Start of the path segment that ends at `j`: just after the last `/` before `j`.
pub open spec fn segment_start(s: Seq<char>, j: int) -> int
    decreases j,
{
    if j <= 0 || j > s.len() {
        0
    } else if s[j - 1] == '/' {
        j
    } else {
        segment_start(s, j - 1)
    }
}

/// The last component of a path that ends at or before `j`, as `Path::file_name` finds it:
/// empty segments and `.` are skipped, and there is none when the path ends in `..`, is a
/// bare root, or is only `.`.
pub open spec fn file_name_before(s: Seq<char>, j: int) -> Option<Seq<char>>
    decreases j,
{
    if j <= 0 || j > s.len() {
        None
    } else {
        let i = segment_start(s, j);
        let seg = s.subrange(i, j);
        if seg.len() == 0 || seg == "."@ {
            if i <= 0 {
                None
            } else {
                proof {
                    lemma_segment_start_bounds(s, j);
                }
                file_name_before(s, i - 1)
            }
        } else if seg == ".."@ {
            None
        } else {
            Some(seg)
        }
    }
}

pub proof fn lemma_segment_start_bounds(s: Seq<char>, j: int)
    requires
        0 <= j <= s.len(),
    ensures
        0 <= segment_start(s, j) <= j,
    decreases j,
{
    if j > 0 && s[j - 1] != '/' {
        lemma_segment_start_bounds(s, j - 1);
    }
}

/// The file name of a `/`-separated path.
pub open spec fn path_file_name(s: Seq<char>) -> Option<Seq<char>> {
    file_name_before(s, s.len() as int)
}

pub fn file_name_of_path(path: &[char]) -> (name: Option<Vec<char>>)
    ensures
        match name {
            Some(n) => path_file_name(path@) == Some(n@),
            None => path_file_name(path@) is None,
        },
{
    let mut j: usize = path.len();
    loop
        invariant
            j <= path@.len(),
            path_file_name(path@) == file_name_before(path@, j as int),
        decreases j,
    {
        if j == 0 {
            return None;
        }
        let mut i: usize = j;
        while i > 0 && path[i - 1] != '/'
            invariant
                i <= j <= path@.len(),
                segment_start(path@, j as int) == segment_start(path@, i as int),
            decreases i,
        {
            i -= 1;
        }
        proof {
            lemma_segment_start_bounds(path@, i as int);
        }
        let seg = copy_chars(path, i, j);
        if seg.len() == 0 || chars_eq_str(seg.as_slice(), ".") {
            if i == 0 {
                return None;
            }
            j = i - 1;
        } else if chars_eq_str(seg.as_slice(), "..") {
            return None;
        } else {
            return Some(seg);
        }
    }
}

/// The editor language of a file known by its whole (lower-case) name.
pub open spec fn spec_language_for_file_name(key: Seq<char>) -> Option<Seq<char>> {
    if key == "dockerfile"@ {
        Some("shell"@)
    } else if key == "composefile"@ {
        Some("yaml"@)
    } else if key == "makefile"@ {
        Some("plaintext"@)
    } else if key == "cmakelists.txt"@ {
        Some("plaintext"@)
    } else if key == "readme"@ {
        Some("plaintext"@)
    } else if key == "license"@ {
        Some("plaintext"@)
    } else if key == "jenkinsfile"@ {
        Some("plaintext"@)
    } else if key == "vagrantfile"@ {
        Some("plaintext"@)
    } else if key == "gemfile"@ {
        Some("ruby"@)
    } else if key == "rakefile"@ {
        Some("ruby"@)
    } else if key == "procfile"@ {
        Some("plaintext"@)
    } else if key == "hosts"@ {
        Some("plaintext"@)
    } else if key == "fstab"@ {
        Some("plaintext"@)
    } else if key == "known_hosts"@ {
        Some("plaintext"@)
    } else if key == "authorized_keys"@ {
        Some("plaintext"@)
    } else if key == ".gitignore"@ {
        Some("plaintext"@)
    } else if key == ".dockerignore"@ {
        Some("plaintext"@)
    } else if key == ".gitattributes"@ {
        Some("plaintext"@)
    } else if key == ".editorconfig"@ {
        Some("ini"@)
    } else if key == ".npmrc"@ {
        Some("ini"@)
    } else if key == ".yarnrc"@ {
        Some("yaml"@)
    } else if key == ".prettierrc"@ {
        Some("json"@)
    } else if key == ".eslintrc"@ {
        Some("json"@)
    } else if key == ".bashrc"@ {
        Some("shell"@)
    } else if key == ".zshrc"@ {
        Some("shell"@)
    } else if key == ".profile"@ {
        Some("shell"@)
    } else if key == ".gitconfig"@ {
        Some("ini"@)
    } else {
        None
    }
}

fn language_for_file_name(key: &[char]) -> (language: Option<&'static str>)
    ensures
        match language {
            Some(l) => spec_language_for_file_name(key@) == Some(l@),
            None => spec_language_for_file_name(key@) is None,
        },
{
    if chars_eq_str(key, "dockerfile") {
        Some("shell")
    } else if chars_eq_str(key, "composefile") {
        Some("yaml")
    } else if chars_eq_str(key, "makefile") {
        Some("plaintext")
    } else if chars_eq_str(key, "cmakelists.txt") {
        Some("plaintext")
    } else if chars_eq_str(key, "readme") {
        Some("plaintext")
    } else if chars_eq_str(key, "license") {
        Some("plaintext")
    } else if chars_eq_str(key, "jenkinsfile") {
        Some("plaintext")
    } else if chars_eq_str(key, "vagrantfile") {
        Some("plaintext")
    } else if chars_eq_str(key, "gemfile") {
        Some("ruby")
    } else if chars_eq_str(key, "rakefile") {
        Some("ruby")
    } else if chars_eq_str(key, "procfile") {
        Some("plaintext")
    } else if chars_eq_str(key, "hosts") {
        Some("plaintext")
    } else if chars_eq_str(key, "fstab") {
        Some("plaintext")
    } else if chars_eq_str(key, "known_hosts") {
        Some("plaintext")
    } else if chars_eq_str(key, "authorized_keys") {
        Some("plaintext")
    } else if chars_eq_str(key, ".gitignore") {
        Some("plaintext")
    } else if chars_eq_str(key, ".dockerignore") {
        Some("plaintext")
    } else if chars_eq_str(key, ".gitattributes") {
        Some("plaintext")
    } else if chars_eq_str(key, ".editorconfig") {
        Some("ini")
    } else if chars_eq_str(key, ".npmrc") {
        Some("ini")
    } else if chars_eq_str(key, ".yarnrc") {
        Some("yaml")
    } else if chars_eq_str(key, ".prettierrc") {
        Some("json")
    } else if chars_eq_str(key, ".eslintrc") {
        Some("json")
    } else if chars_eq_str(key, ".bashrc") {
        Some("shell")
    } else if chars_eq_str(key, ".zshrc") {
        Some("shell")
    } else if chars_eq_str(key, ".profile") {
        Some("shell")
    } else if chars_eq_str(key, ".gitconfig") {
        Some("ini")
    } else {
        None
    }
}

/// The editor language of a (lower-case) file extension.
pub open spec fn spec_language_for_extension(key: Seq<char>) -> Option<Seq<char>> {
    if key == "txt"@ {
        Some("plaintext"@)
    } else if key == "log"@ {
        Some("plaintext"@)
    } else if key == "conf"@ {
        Some("plaintext"@)
    } else if key == "config"@ {
        Some("plaintext"@)
    } else if key == "cfg"@ {
        Some("plaintext"@)
    } else if key == "ini"@ {
        Some("ini"@)
    } else if key == "env"@ {
        Some("shell"@)
    } else if key == "properties"@ {
        Some("ini"@)
    } else if key == "prop"@ {
        Some("ini"@)
    } else if key == "lock"@ {
        Some("plaintext"@)
    } else if key == "json"@ {
        Some("json"@)
    } else if key == "jsonc"@ {
        Some("json"@)
    } else if key == "json5"@ {
        Some("json"@)
    } else if key == "yaml"@ {
        Some("yaml"@)
    } else if key == "yml"@ {
        Some("yaml"@)
    } else if key == "toml"@ {
        Some("ini"@)
    } else if key == "xml"@ {
        Some("xml"@)
    } else if key == "csv"@ {
        Some("plaintext"@)
    } else if key == "tsv"@ {
        Some("plaintext"@)
    } else if key == "md"@ {
        Some("markdown"@)
    } else if key == "markdown"@ {
        Some("markdown"@)
    } else if key == "sql"@ {
        Some("sql"@)
    } else if key == "gql"@ {
        Some("graphql"@)
    } else if key == "graphql"@ {
        Some("graphql"@)
    } else if key == "js"@ {
        Some("javascript"@)
    } else if key == "jsx"@ {
        Some("javascript"@)
    } else if key == "mjs"@ {
        Some("javascript"@)
    } else if key == "cjs"@ {
        Some("javascript"@)
    } else if key == "ts"@ {
        Some("typescript"@)
    } else if key == "tsx"@ {
        Some("typescript"@)
    } else if key == "vue"@ {
        Some("html"@)
    } else if key == "html"@ {
        Some("html"@)
    } else if key == "htm"@ {
        Some("html"@)
    } else if key == "css"@ {
        Some("css"@)
    } else if key == "scss"@ {
        Some("scss"@)
    } else if key == "less"@ {
        Some("less"@)
    } else if key == "rs"@ {
        Some("rust"@)
    } else if key == "py"@ {
        Some("python"@)
    } else if key == "pyw"@ {
        Some("python"@)
    } else if key == "sh"@ {
        Some("shell"@)
    } else if key == "bash"@ {
        Some("shell"@)
    } else if key == "zsh"@ {
        Some("shell"@)
    } else if key == "fish"@ {
        Some("shell"@)
    } else if key == "ps1"@ {
        Some("powershell"@)
    } else if key == "psm1"@ {
        Some("powershell"@)
    } else if key == "bat"@ {
        Some("bat"@)
    } else if key == "cmd"@ {
        Some("bat"@)
    } else if key == "c"@ {
        Some("c"@)
    } else if key == "h"@ {
        Some("c"@)
    } else if key == "cpp"@ {
        Some("cpp"@)
    } else if key == "cc"@ {
        Some("cpp"@)
    } else if key == "cxx"@ {
        Some("cpp"@)
    } else if key == "hpp"@ {
        Some("cpp"@)
    } else if key == "hxx"@ {
        Some("cpp"@)
    } else if key == "java"@ {
        Some("java"@)
    } else if key == "go"@ {
        Some("go"@)
    } else if key == "php"@ {
        Some("php"@)
    } else if key == "rb"@ {
        Some("ruby"@)
    } else if key == "swift"@ {
        Some("swift"@)
    } else if key == "kt"@ {
        Some("kotlin"@)
    } else if key == "kts"@ {
        Some("kotlin"@)
    } else if key == "lua"@ {
        Some("plaintext"@)
    } else if key == "pl"@ {
        Some("plaintext"@)
    } else if key == "pm"@ {
        Some("plaintext"@)
    } else if key == "gradle"@ {
        Some("plaintext"@)
    } else if key == "groovy"@ {
        Some("plaintext"@)
    } else if key == "dart"@ {
        Some("plaintext"@)
    } else if key == "cs"@ {
        Some("plaintext"@)
    } else if key == "csproj"@ {
        Some("xml"@)
    } else if key == "fs"@ {
        Some("plaintext"@)
    } else if key == "fsx"@ {
        Some("plaintext"@)
    } else if key == "vb"@ {
        Some("plaintext"@)
    } else if key == "sln"@ {
        Some("plaintext"@)
    } else if key == "cmake"@ {
        Some("plaintext"@)
    } else if key == "service"@ {
        Some("ini"@)
    } else if key == "socket"@ {
        Some("ini"@)
    } else if key == "timer"@ {
        Some("ini"@)
    } else if key == "target"@ {
        Some("ini"@)
    } else if key == "mount"@ {
        Some("ini"@)
    } else {
        None
    }
}

fn language_for_extension(key: &[char]) -> (language: Option<&'static str>)
    ensures
        match language {
            Some(l) => spec_language_for_extension(key@) == Some(l@),
            None => spec_language_for_extension(key@) is None,
        },
{
    if chars_eq_str(key, "txt") {
        Some("plaintext")
    } else if chars_eq_str(key, "log") {
        Some("plaintext")
    } else if chars_eq_str(key, "conf") {
        Some("plaintext")
    } else if chars_eq_str(key, "config") {
        Some("plaintext")
    } else if chars_eq_str(key, "cfg") {
        Some("plaintext")
    } else if chars_eq_str(key, "ini") {
        Some("ini")
    } else if chars_eq_str(key, "env") {
        Some("shell")
    } else if chars_eq_str(key, "properties") {
        Some("ini")
    } else if chars_eq_str(key, "prop") {
        Some("ini")
    } else if chars_eq_str(key, "lock") {
        Some("plaintext")
    } else if chars_eq_str(key, "json") {
        Some("json")
    } else if chars_eq_str(key, "jsonc") {
        Some("json")
    } else if chars_eq_str(key, "json5") {
        Some("json")
    } else if chars_eq_str(key, "yaml") {
        Some("yaml")
    } else if chars_eq_str(key, "yml") {
        Some("yaml")
    } else if chars_eq_str(key, "toml") {
        Some("ini")
    } else if chars_eq_str(key, "xml") {
        Some("xml")
    } else if chars_eq_str(key, "csv") {
        Some("plaintext")
    } else if chars_eq_str(key, "tsv") {
        Some("plaintext")
    } else if chars_eq_str(key, "md") {
        Some("markdown")
    } else if chars_eq_str(key, "markdown") {
        Some("markdown")
    } else if chars_eq_str(key, "sql") {
        Some("sql")
    } else if chars_eq_str(key, "gql") {
        Some("graphql")
    } else if chars_eq_str(key, "graphql") {
        Some("graphql")
    } else if chars_eq_str(key, "js") {
        Some("javascript")
    } else if chars_eq_str(key, "jsx") {
        Some("javascript")
    } else if chars_eq_str(key, "mjs") {
        Some("javascript")
    } else if chars_eq_str(key, "cjs") {
        Some("javascript")
    } else if chars_eq_str(key, "ts") {
        Some("typescript")
    } else if chars_eq_str(key, "tsx") {
        Some("typescript")
    } else if chars_eq_str(key, "vue") {
        Some("html")
    } else if chars_eq_str(key, "html") {
        Some("html")
    } else if chars_eq_str(key, "htm") {
        Some("html")
    } else if chars_eq_str(key, "css") {
        Some("css")
    } else if chars_eq_str(key, "scss") {
        Some("scss")
    } else if chars_eq_str(key, "less") {
        Some("less")
    } else if chars_eq_str(key, "rs") {
        Some("rust")
    } else if chars_eq_str(key, "py") {
        Some("python")
    } else if chars_eq_str(key, "pyw") {
        Some("python")
    } else if chars_eq_str(key, "sh") {
        Some("shell")
    } else if chars_eq_str(key, "bash") {
        Some("shell")
    } else if chars_eq_str(key, "zsh") {
        Some("shell")
    } else if chars_eq_str(key, "fish") {
        Some("shell")
    } else if chars_eq_str(key, "ps1") {
        Some("powershell")
    } else if chars_eq_str(key, "psm1") {
        Some("powershell")
    } else if chars_eq_str(key, "bat") {
        Some("bat")
    } else if chars_eq_str(key, "cmd") {
        Some("bat")
    } else if chars_eq_str(key, "c") {
        Some("c")
    } else if chars_eq_str(key, "h") {
        Some("c")
    } else if chars_eq_str(key, "cpp") {
        Some("cpp")
    } else if chars_eq_str(key, "cc") {
        Some("cpp")
    } else if chars_eq_str(key, "cxx") {
        Some("cpp")
    } else if chars_eq_str(key, "hpp") {
        Some("cpp")
    } else if chars_eq_str(key, "hxx") {
        Some("cpp")
    } else if chars_eq_str(key, "java") {
        Some("java")
    } else if chars_eq_str(key, "go") {
        Some("go")
    } else if chars_eq_str(key, "php") {
        Some("php")
    } else if chars_eq_str(key, "rb") {
        Some("ruby")
    } else if chars_eq_str(key, "swift") {
        Some("swift")
    } else if chars_eq_str(key, "kt") {
        Some("kotlin")
    } else if chars_eq_str(key, "kts") {
        Some("kotlin")
    } else if chars_eq_str(key, "lua") {
        Some("plaintext")
    } else if chars_eq_str(key, "pl") {
        Some("plaintext")
    } else if chars_eq_str(key, "pm") {
        Some("plaintext")
    } else if chars_eq_str(key, "gradle") {
        Some("plaintext")
    } else if chars_eq_str(key, "groovy") {
        Some("plaintext")
    } else if chars_eq_str(key, "dart") {
        Some("plaintext")
    } else if chars_eq_str(key, "cs") {
        Some("plaintext")
    } else if chars_eq_str(key, "csproj") {
        Some("xml")
    } else if chars_eq_str(key, "fs") {
        Some("plaintext")
    } else if chars_eq_str(key, "fsx") {
        Some("plaintext")
    } else if chars_eq_str(key, "vb") {
        Some("plaintext")
    } else if chars_eq_str(key, "sln") {
        Some("plaintext")
    } else if chars_eq_str(key, "cmake") {
        Some("plaintext")
    } else if chars_eq_str(key, "service") {
        Some("ini")
    } else if chars_eq_str(key, "socket") {
        Some("ini")
    } else if chars_eq_str(key, "timer") {
        Some("ini")
    } else if chars_eq_str(key, "target") {
        Some("ini")
    } else if chars_eq_str(key, "mount") {
        Some("ini")
    } else {
        None
    }
}

/// The language of the first entry of `table`, from position `i` on, whose name is `key`.
pub open spec fn table_language(table: Seq<(Seq<char>, Seq<char>)>, key: Seq<char>, i: int) -> Option<Seq<char>>
    decreases table.len() - i,
{
    if i < 0 || i >= table.len() {
        None
    } else if table[i].0 == key {
        Some(table[i].1)
    } else {
        table_language(table, key, i + 1)
    }
}

/// The file extensions the editor opens, each with its language.
pub open spec fn editable_text_extensions() -> Seq<(Seq<char>, Seq<char>)> {
    seq![
        ("txt"@, "plaintext"@),
        ("log"@, "plaintext"@),
        ("conf"@, "plaintext"@),
        ("config"@, "plaintext"@),
        ("cfg"@, "plaintext"@),
        ("ini"@, "ini"@),
        ("env"@, "shell"@),
        ("properties"@, "ini"@),
        ("prop"@, "ini"@),
        ("lock"@, "plaintext"@),
        ("json"@, "json"@),
        ("jsonc"@, "json"@),
        ("json5"@, "json"@),
        ("yaml"@, "yaml"@),
        ("yml"@, "yaml"@),
        ("toml"@, "ini"@),
        ("xml"@, "xml"@),
        ("csv"@, "plaintext"@),
        ("tsv"@, "plaintext"@),
        ("md"@, "markdown"@),
        ("markdown"@, "markdown"@),
        ("sql"@, "sql"@),
        ("gql"@, "graphql"@),
        ("graphql"@, "graphql"@),
        ("js"@, "javascript"@),
        ("jsx"@, "javascript"@),
        ("mjs"@, "javascript"@),
        ("cjs"@, "javascript"@),
        ("ts"@, "typescript"@),
        ("tsx"@, "typescript"@),
        ("vue"@, "html"@),
        ("html"@, "html"@),
        ("htm"@, "html"@),
        ("css"@, "css"@),
        ("scss"@, "scss"@),
        ("less"@, "less"@),
        ("rs"@, "rust"@),
        ("py"@, "python"@),
        ("pyw"@, "python"@),
        ("sh"@, "shell"@),
        ("bash"@, "shell"@),
        ("zsh"@, "shell"@),
        ("fish"@, "shell"@),
        ("ps1"@, "powershell"@),
        ("psm1"@, "powershell"@),
        ("bat"@, "bat"@),
        ("cmd"@, "bat"@),
        ("c"@, "c"@),
        ("h"@, "c"@),
        ("cpp"@, "cpp"@),
        ("cc"@, "cpp"@),
        ("cxx"@, "cpp"@),
        ("hpp"@, "cpp"@),
        ("hxx"@, "cpp"@),
        ("java"@, "java"@),
        ("go"@, "go"@),
        ("php"@, "php"@),
        ("rb"@, "ruby"@),
        ("swift"@, "swift"@),
        ("kt"@, "kotlin"@),
        ("kts"@, "kotlin"@),
        ("lua"@, "plaintext"@),
        ("pl"@, "plaintext"@),
        ("pm"@, "plaintext"@),
        ("gradle"@, "plaintext"@),
        ("groovy"@, "plaintext"@),
        ("dart"@, "plaintext"@),
        ("cs"@, "plaintext"@),
        ("csproj"@, "xml"@),
        ("fs"@, "plaintext"@),
        ("fsx"@, "plaintext"@),
        ("vb"@, "plaintext"@),
        ("sln"@, "plaintext"@),
        ("cmake"@, "plaintext"@),
        ("service"@, "ini"@),
        ("socket"@, "ini"@),
        ("timer"@, "ini"@),
        ("target"@, "ini"@),
        ("mount"@, "ini"@),
    ]
}

/// The whole file names the editor opens, each with its language.
pub open spec fn editable_text_file_names() -> Seq<(Seq<char>, Seq<char>)> {
    seq![
        ("dockerfile"@, "shell"@),
        ("composefile"@, "yaml"@),
        ("makefile"@, "plaintext"@),
        ("cmakelists.txt"@, "plaintext"@),
        ("readme"@, "plaintext"@),
        ("license"@, "plaintext"@),
        ("jenkinsfile"@, "plaintext"@),
        ("vagrantfile"@, "plaintext"@),
        ("gemfile"@, "ruby"@),
        ("rakefile"@, "ruby"@),
        ("procfile"@, "plaintext"@),
        ("hosts"@, "plaintext"@),
        ("fstab"@, "plaintext"@),
        ("known_hosts"@, "plaintext"@),
        ("authorized_keys"@, "plaintext"@),
        (".gitignore"@, "plaintext"@),
        (".dockerignore"@, "plaintext"@),
        (".gitattributes"@, "plaintext"@),
        (".editorconfig"@, "ini"@),
        (".npmrc"@, "ini"@),
        (".yarnrc"@, "yaml"@),
        (".prettierrc"@, "json"@),
        (".eslintrc"@, "json"@),
        (".bashrc"@, "shell"@),
        (".zshrc"@, "shell"@),
        (".profile"@, "shell"@),
        (".gitconfig"@, "ini"@),
    ]
}

/// An extension's editor language is the one the extension table lists for it (for
/// example `py` is `python`), and an extension the table does not list has none.
pub proof fn lemma_language_for_extension_follows_table(key: Seq<char>)
    ensures
        spec_language_for_extension(key) == table_language(editable_text_extensions(), key, 0),
{
    reveal_with_fuel(table_language, 81);
}

/// A file name's editor language is the one the file-name table lists for it (for example
/// `dockerfile` is `shell`), and a name the table does not list has none.
pub proof fn lemma_language_for_file_name_follows_table(key: Seq<char>)
    ensures
        spec_language_for_file_name(key) == table_language(editable_text_file_names(), key, 0),
{
    reveal_with_fuel(table_language, 29);
}

/// The name an editable file is judged by: the path's file name (the whole path when it
/// has none), trimmed and in ASCII lower case.
pub open spec fn editor_file_name(path: Seq<char>) -> Seq<char> {
    let base = match path_file_name(path) {
        Some(n) => n,
        None => path,
    };
    to_ascii_lowercase(trim(base))
}

/// The editor language of a remote file: none for an empty name; `shell` for names that
/// start with `.env`; then the language of a known file name; else that of the extension.
pub open spec fn spec_text_language_for_path(path: Seq<char>) -> Option<Seq<char>> {
    let name = editor_file_name(path);
    if name.len() == 0 {
        None
    } else if name.len() >= 4 && name.subrange(0, 4) == ".env"@ {
        Some("shell"@)
    } else if spec_language_for_file_name(name) is Some {
        spec_language_for_file_name(name)
    } else {
        match path_file_name(name) {
            Some(n) => match file_extension(n) {
                Some(ext) => spec_language_for_extension(ext),
                None => None,
            },
            None => None,
        }
    }
}

fn extension_of(name: &[char]) -> (ext: Option<Vec<char>>)
    ensures
        match ext {
            Some(e) => file_extension(name@) == Some(e@),
            None => file_extension(name@) is None,
        },
{
    let mut i: usize = name.len();
    while i > 0 && name[i - 1] != '.'
        invariant
            i <= name@.len(),
            crate::file_names::last_dot(name@, name@.len() as int) == crate::file_names::last_dot(name@, i as int),
        decreases i,
    {
        i -= 1;
    }
    if chars_eq_str(name, "..") || i <= 1 {
        None
    } else {
        Some(copy_chars(name, i, name.len()))
    }
}

pub fn text_language_for_path(path: &str) -> (language: Option<&'static str>)
    ensures
        match language {
            Some(l) => spec_text_language_for_path(path@) == Some(l@),
            None => spec_text_language_for_path(path@) is None,
        },
{
    let chars = chars_of(path);
    let base = match file_name_of_path(chars.as_slice()) {
        Some(n) => n,
        None => chars,
    };
    let name = lowercase_chars(trim_chars(base.as_slice()).as_slice());
    proof {
        reveal_strlit(".env");
    }
    if name.len() == 0 {
        return None;
    }
    if starts_with_str(name.as_slice(), ".env") {
        return Some("shell");
    }
    let by_name = language_for_file_name(name.as_slice());
    if by_name.is_some() {
        return by_name;
    }
    match file_name_of_path(name.as_slice()) {
        Some(n) => match extension_of(n.as_slice()) {
            Some(ext) => language_for_extension(ext.as_slice()),
            None => None,
        },
        None => None,
    }
}

/// A remote file can be opened in the editor when it has a language.
pub fn is_supported_text_path(path: &str) -> (supported: bool)
    ensures
        supported == spec_text_language_for_path(path@) is Some,
{
    text_language_for_path(path).is_some()
}

pub fn ensure_editable_text_path(path: &str) -> (result: Result<(), String>)
    ensures
        match result {
            Ok(()) => spec_text_language_for_path(path@) is Some,
            Err(e) => spec_text_language_for_path(path@) is None
                && e@ == "Unsupported file type: current editor only supports text, code, and config files"@,
        },
{
    if is_supported_text_path(path) {
        return Ok(());
    }
    Err(owned("Unsupported file type: current editor only supports text, code, and config files"))
}


/// Request size of a transfer buffer: 256 KiB at most.
pub const SFTP_TRANSFER_BUFFER_SIZE: usize = 262144;

/// Bytes a transfer keeps in flight: 16 MiB.
pub const SFTP_TARGET_IN_FLIGHT_BYTES: usize = 16777216;

pub const SFTP_MIN_CONCURRENT_REQUESTS: usize = 8;

pub const SFTP_MAX_CONCURRENT_REQUESTS: usize = 64;

/// Progress is reported after this many bytes even when the interval has not passed: 2 MiB.
pub const SFTP_PROGRESS_EMIT_STEP_BYTES: u64 = 2097152;

/// Progress is reported at least this often, in nanoseconds: 120 ms.
pub const SFTP_PROGRESS_EMIT_INTERVAL_NANOS: u128 = 120000000;

/// Largest file the inline editor opens or saves: 8 MiB.
pub const MAX_INLINE_EDITOR_FILE_BYTES: u64 = 8388608;

/// `a / b` rounded up, as `usize::div_ceil` computes it.
pub open spec fn div_ceil(a: nat, b: nat) -> nat {
    if a % b == 0 {
        a / b
    } else {
        a / b + 1
    }
}

pub open spec fn clamp_int(v: int, lo: int, hi: int) -> int {
    if v < lo {
        lo
    } else if v > hi {
        hi
    } else {
        v
    }
}

/// How many read requests a transfer keeps in flight for requests of `request_size` bytes:
/// enough for 16 MiB, between 8 and 64.
pub open spec fn spec_transfer_window(request_size: nat) -> int {
    let r = if request_size == 0 {
        1nat
    } else {
        request_size
    };
    clamp_int(div_ceil(SFTP_TARGET_IN_FLIGHT_BYTES as nat, r) as int, SFTP_MIN_CONCURRENT_REQUESTS as int, SFTP_MAX_CONCURRENT_REQUESTS as int)
}

pub fn effective_transfer_window(request_size: usize) -> (window: usize)
    ensures
        window == spec_transfer_window(request_size as nat),
{
    let r: usize = if request_size == 0 {
        1
    } else {
        request_size
    };
    let q: usize = SFTP_TARGET_IN_FLIGHT_BYTES / r;
    let rounded: usize = if SFTP_TARGET_IN_FLIGHT_BYTES % r == 0 {
        q
    } else {
        q + 1
    };
    if rounded < SFTP_MIN_CONCURRENT_REQUESTS {
        SFTP_MIN_CONCURRENT_REQUESTS
    } else if rounded > SFTP_MAX_CONCURRENT_REQUESTS {
        SFTP_MAX_CONCURRENT_REQUESTS
    } else {
        rounded
    }
}

/// The payload a packet limit leaves room for: 1024 bytes less, at least 1.
pub open spec fn packet_payload(limit: nat) -> nat {
    if limit <= 1025 {
        1
    } else {
        (limit - 1024) as nat
    }
}

/// The request size of a transfer: the smaller of the server's read limit and the payload
/// its packet limit leaves, else `fallback` when the server gives neither; always between
/// 1 and 256 KiB.
pub open spec fn spec_transfer_size(server_limit: Option<usize>, packet_limit: Option<usize>, fallback: usize) -> int {
    let chosen: int = match (server_limit, packet_limit) {
        (Some(s), Some(p)) => if (s as nat) < packet_payload(p as nat) {
            s as int
        } else {
            packet_payload(p as nat) as int
        },
        (Some(s), None) => s as int,
        (None, Some(p)) => packet_payload(p as nat) as int,
        (None, None) => fallback as int,
    };
    clamp_int(chosen, 1, SFTP_TRANSFER_BUFFER_SIZE as int)
}

pub fn effective_transfer_size(server_limit: Option<usize>, packet_limit: Option<usize>, fallback: usize) -> (size: usize)
    ensures
        size == spec_transfer_size(server_limit, packet_limit, fallback),
{
    let payload: Option<usize> = match packet_limit {
        Some(length) => {
            let rest = length.saturating_sub(1024);
            Some(if rest < 1 { 1 } else { rest })
        },
        None => None,
    };
    let chosen: usize = match (server_limit, payload) {
        (Some(s), Some(p)) => if s < p { s } else { p },
        (Some(s), None) => s,
        (None, Some(p)) => p,
        (None, None) => fallback,
    };
    if chosen < 1 {
        1
    } else if chosen > SFTP_TRANSFER_BUFFER_SIZE {
        SFTP_TRANSFER_BUFFER_SIZE
    } else {
        chosen
    }
}

/// Progress is due once 2 MiB have moved since the last report or 120 ms have passed.
pub open spec fn spec_progress_due(elapsed_nanos: u128, bytes_since_emit: u64) -> bool {
    bytes_since_emit >= SFTP_PROGRESS_EMIT_STEP_BYTES || elapsed_nanos >= SFTP_PROGRESS_EMIT_INTERVAL_NANOS
}

pub fn progress_due(elapsed_nanos: u128, bytes_since_emit: u64) -> (due: bool)
    ensures
        due == spec_progress_due(elapsed_nanos, bytes_since_emit),
{
    bytes_since_emit >= SFTP_PROGRESS_EMIT_STEP_BYTES || elapsed_nanos >= SFTP_PROGRESS_EMIT_INTERVAL_NANOS
}

/// Whether a transfer reports progress now. The time since `last_emit` is read from the
/// clock; when `bytes_since_emit` reaches 2 MiB the answer is `true` whatever it reads.
pub fn should_emit_transfer_progress(last_emit: &std::time::Instant, bytes_since_emit: u64) -> (due: bool)
    ensures
        bytes_since_emit >= SFTP_PROGRESS_EMIT_STEP_BYTES ==> due,
        exists|elapsed: u128| due == spec_progress_due(elapsed, bytes_since_emit),
{
    let elapsed = crate::zmodem::nanos_since(last_emit);
    let due = progress_due(elapsed, bytes_since_emit);
    assert(due == spec_progress_due(elapsed, bytes_since_emit));
    due
}

/// A byte that marks text as binary when it is common: controls other than tab, line feed,
/// form feed's neighbours and carriage return (0-8, 11, 12, 14-31).
pub open spec fn suspicious_byte(b: u8) -> bool {
    b <= 8 || b == 11 || b == 12 || (14 <= b && b <= 31)
}

pub open spec fn count_suspicious(s: Seq<u8>) -> nat
    decreases s.len(),
{
    if s.len() == 0 {
        0
    } else {
        count_suspicious(s.drop_last()) + if suspicious_byte(s.last()) {
            1nat
        } else {
            0nat
        }
    }
}

pub proof fn lemma_count_suspicious_bound(s: Seq<u8>)
    ensures
        count_suspicious(s) <= s.len(),
    decreases s.len(),
{
    if s.len() > 0 {
        lemma_count_suspicious_bound(s.drop_last());
    }
}

/// Bytes are probably binary when they hold a NUL, or when more than one in eight of the
/// first 4096 are suspicious control bytes.
pub open spec fn spec_is_probably_binary(bytes: Seq<u8>) -> bool {
    let n = if bytes.len() < 4096 {
        bytes.len()
    } else {
        4096
    };
    bytes.contains(0u8) || (n > 0 && count_suspicious(bytes.subrange(0, n as int)) * 8 > n)
}

pub fn is_probably_binary(bytes: &[u8]) -> (binary: bool)
    ensures
        binary == spec_is_probably_binary(bytes@),
{
    let mut i: usize = 0;
    while i < bytes.len()
        invariant
            i <= bytes@.len(),
            forall|k: int| 0 <= k < i ==> bytes@[k] != 0u8,
        decreases bytes@.len() - i,
    {
        if bytes[i] == 0 {
            assert(bytes@.contains(0u8)) by {
                assert(bytes@[i as int] == 0u8);
            }
            return true;
        }
        i += 1;
    }
    assert(!bytes@.contains(0u8));
    let sample_len: usize = if bytes.len() < 4096 {
        bytes.len()
    } else {
        4096
    };
    if sample_len == 0 {
        return false;
    }
    let mut suspicious: usize = 0;
    let mut k: usize = 0;
    while k < sample_len
        invariant
            k <= sample_len <= 4096,
            sample_len <= bytes@.len(),
            suspicious == count_suspicious(bytes@.subrange(0, k as int)),
            suspicious <= k,
        decreases sample_len - k,
    {
        let b = bytes[k];
        assert(bytes@.subrange(0, k + 1).drop_last() =~= bytes@.subrange(0, k as int));
        if b <= 8 || b == 11 || b == 12 || (14 <= b && b <= 31) {
            suspicious += 1;
        }
        k += 1;
    }
    suspicious * 8 > sample_len
}

/// Key of a cached listing or pager: the session id, `::`, and the path.
pub open spec fn spec_cache_key(session_id: Seq<char>, path: Seq<char>) -> Seq<char> {
    session_id + "::"@ + path
}

pub fn cache_key(session_id: &str, path: &str) -> (key: String)
    ensures
        key@ == spec_cache_key(session_id@, path@),
{
    let head = crate::text::concat(session_id, "::");
    crate::text::concat(head.as_str(), path)
}

/// Index just after the last character of `s[..j]` that is not `/`.
pub open spec fn end_without_slashes(s: Seq<char>, j: int) -> int
    decreases j,
{
    if j <= 0 || j > s.len() {
        0
    } else if s[j - 1] == '/' {
        end_without_slashes(s, j - 1)
    } else {
        j
    }
}

/// A path without its trailing slashes, unless nothing but slashes (or nothing) is left.
pub open spec fn spec_normalize_lock_path(path: Seq<char>) -> Seq<char> {
    let e = end_without_slashes(path, path.len() as int);
    if e == 0 {
        path
    } else {
        path.subrange(0, e)
    }
}

pub fn normalize_lock_path(path: &str) -> (normalized: String)
    ensures
        normalized@ == spec_normalize_lock_path(path@),
{
    let chars = chars_of(path);
    let mut e: usize = chars.len();
    while e > 0 && chars[e - 1] == '/'
        invariant
            e <= chars@.len(),
            chars@ == path@,
            end_without_slashes(path@, path@.len() as int) == end_without_slashes(path@, e as int),
        decreases e,
    {
        e -= 1;
    }
    if e == 0 {
        owned(path)
    } else {
        crate::text::string_of(copy_chars(chars.as_slice(), 0, e).as_slice())
    }
}

/// Key of the lock that serialises changes to one remote path of a session.
pub fn mutation_lock_key(session_id: &str, path: &str) -> (key: String)
    ensures
        key@ == spec_cache_key(session_id@, spec_normalize_lock_path(path@)),
{
    let normalized = normalize_lock_path(path);
    cache_key(session_id, normalized.as_str())
}

/// Files up to 8 MiB can be edited inline; a larger one is refused with a message that
/// names it and its size.
pub fn ensure_inline_editor_file_size(path: &str, size: u64) -> (result: Result<(), String>)
    ensures
        match result {
            Ok(()) => size <= MAX_INLINE_EDITOR_FILE_BYTES,
            Err(e) => size > MAX_INLINE_EDITOR_FILE_BYTES && e@ == "Inline editor limit exceeded: "@ + path@
                + " is too large ("@ + crate::text::decimal(size as nat)
                + " bytes). Please download it or use an external editor."@,
        },
{
    if size <= MAX_INLINE_EDITOR_FILE_BYTES {
        return Ok(());
    }
    let a = crate::text::concat("Inline editor limit exceeded: ", path);
    let b = crate::text::concat(a.as_str(), " is too large (");
    let c = crate::text::concat(b.as_str(), crate::text::decimal_string(size).as_str());
    Err(crate::text::concat(c.as_str(), " bytes). Please download it or use an external editor."))
}


/// Text with every CRLF and every lone CR turned into LF.
pub open spec fn spec_normalize_newlines(s: Seq<char>) -> Seq<char>
    decreases s.len(),
{
    if s.len() == 0 {
        seq![]
    } else if s[0] == '\r' && s.len() >= 2 && s[1] == '\n' {
        seq!['\n'] + spec_normalize_newlines(s.subrange(2, s.len() as int))
    } else if s[0] == '\r' {
        seq!['\n'] + spec_normalize_newlines(s.drop_first())
    } else {
        seq![s[0]] + spec_normalize_newlines(s.drop_first())
    }
}

pub fn normalize_newline_chars(s: &[char]) -> (out: Vec<char>)
    ensures
        out@ == spec_normalize_newlines(s@),
{
    let mut out: Vec<char> = Vec::new();
    let mut i: usize = 0;
    assert(s@.subrange(0, s@.len() as int) =~= s@);
    assert(Seq::<char>::empty() + s@ =~= s@);
    while i < s.len()
        invariant
            i <= s@.len(),
            spec_normalize_newlines(s@) == out@ + spec_normalize_newlines(s@.subrange(i as int, s@.len() as int)),
        decreases s@.len() - i,
    {
        let ghost rest = s@.subrange(i as int, s@.len() as int);
        let ghost before = out@;
        if s[i] == '\r' && i + 1 < s.len() && s[i + 1] == '\n' {
            assert(rest.subrange(2, rest.len() as int) =~= s@.subrange(i + 2, s@.len() as int));
            out.push('\n');
            i += 2;
        } else {
            assert(rest.drop_first() =~= s@.subrange(i + 1, s@.len() as int));
            if s[i] == '\r' {
                out.push('\n');
            } else {
                out.push(s[i]);
            }
            i += 1;
        }
        proof {
            let tail = spec_normalize_newlines(s@.subrange(i as int, s@.len() as int));
            assert(before + (seq![out@.last()] + tail) =~= out@ + tail);
        }
    }
    assert(s@.subrange(i as int, s@.len() as int) =~= Seq::<char>::empty());
    assert(out@ + Seq::<char>::empty() =~= out@);
    out
}

pub fn normalize_editor_newlines(text: &str) -> (normalized: String)
    ensures
        normalized@ == spec_normalize_newlines(text@),
{
    let chars = chars_of(text);
    crate::text::string_of(normalize_newline_chars(chars.as_slice()).as_slice())
}

pub open spec fn has_crlf(s: Seq<char>) -> bool {
    exists|i: int| 0 <= i < s.len() - 1 && #[trigger] s[i] == '\r' && s[i + 1] == '\n'
}

/// The line ending a text uses: `crlf` if it has any CRLF, else `cr` if it has any CR,
/// else `lf`.
pub open spec fn spec_detect_line_ending(s: Seq<char>) -> Seq<char> {
    if has_crlf(s) {
        "crlf"@
    } else if s.contains('\r') {
        "cr"@
    } else {
        "lf"@
    }
}

pub fn detect_line_ending(text: &str) -> (ending: &'static str)
    ensures
        ending@ == spec_detect_line_ending(text@),
{
    let s = chars_of(text);
    let mut i: usize = 0;
    let mut cr = false;
    while i < s.len()
        invariant
            i <= s@.len(),
            s@ == text@,
            forall|k: int| 0 <= k < i && k < s@.len() - 1 ==> !(#[trigger] s@[k] == '\r' && s@[k + 1] == '\n'),
            cr == exists|k: int| 0 <= k < i && #[trigger] s@[k] == '\r',
        decreases s@.len() - i,
    {
        if s[i] == '\r' {
            if i + 1 < s.len() && s[i + 1] == '\n' {
                assert(has_crlf(s@));
                return "crlf";
            }
            cr = true;
        }
        i += 1;
    }
    assert(!has_crlf(s@));
    if cr {
        let ghost k = choose|k: int| 0 <= k < i && #[trigger] s@[k] == '\r';
        assert(s@.contains('\r'));
        "cr"
    } else {
        assert(!s@.contains('\r')) by {
            if s@.contains('\r') {
                let k = choose|k: int| 0 <= k < s@.len() && s@[k] == '\r';
                assert(s@[k] == '\r');
            }
        }
        "lf"
    }
}


/// One entry of a remote directory listing.
#[derive(Clone, Debug)]
pub struct FileEntry {
    pub name: String,
    pub is_dir: bool,
    pub size: u64,
    pub modified: u64,
    pub permissions: u32,
    pub owner: Option<String>,
    pub group: Option<String>,
    pub editable: bool,
    pub language: String,
}

/// The attributes the server reports for a directory entry, each as far as it reports it.
#[derive(Clone, Copy, Debug, PartialEq, Eq, Structural)]
pub struct FileAttrs {
    pub is_dir: bool,
    pub size: Option<u64>,
    pub mtime: Option<u32>,
    pub permissions: Option<u32>,
    pub uid: Option<u32>,
    pub gid: Option<u32>,
}

/// The name of an account id, when the map knows it.
pub open spec fn account_name(id: Option<u32>, names: Map<u32, String>) -> Option<String> {
    match id {
        Some(i) => if names.contains_key(i) {
            Some(names[i])
        } else {
            None
        },
        None => None,
    }
}

fn lookup_account(id: Option<u32>, names: &std::collections::HashMap<u32, String>) -> (name: Option<String>)
    ensures
        name == account_name(id, names@),
{
    broadcast use vstd::std_specs::hash::group_hash_axioms;

    match id {
        Some(i) => match names.get(&i) {
            Some(n) => Some(n.clone()),
            None => None,
        },
        None => None,
    }
}

/// The listing entry for a file: missing numbers read as 0, owner and group are looked up
/// by id, and the entry is editable when it is not a directory and its name has an editor
/// language (`plaintext` is reported when it has none).
pub open spec fn entry_matches_attrs(
    entry: FileEntry,
    file_name: String,
    attrs: FileAttrs,
    passwd: Map<u32, String>,
    groups: Map<u32, String>,
) -> bool {
    let language = spec_text_language_for_path(file_name@);
    &&& entry.name == file_name
    &&& entry.is_dir == attrs.is_dir
    &&& entry.size == match attrs.size {
        Some(v) => v,
        None => 0u64,
    }
    &&& entry.modified == match attrs.mtime {
        Some(v) => v as u64,
        None => 0u64,
    }
    &&& entry.permissions == match attrs.permissions {
        Some(v) => v,
        None => 0u32,
    }
    &&& entry.owner == account_name(attrs.uid, passwd)
    &&& entry.group == account_name(attrs.gid, groups)
    &&& entry.editable == (!attrs.is_dir && language is Some)
    &&& entry.language@ == match language {
        Some(l) => l,
        None => "plaintext"@,
    }
}

pub fn file_entry_from_attrs(
    file_name: String,
    attrs: &FileAttrs,
    passwd_map: &std::collections::HashMap<u32, String>,
    group_map: &std::collections::HashMap<u32, String>,
) -> (entry: FileEntry)
    ensures
        entry_matches_attrs(entry, file_name, *attrs, passwd_map@, group_map@),
{
    let language = text_language_for_path(file_name.as_str());
    let editable = !attrs.is_dir && language.is_some();
    let language_name = match language {
        Some(l) => owned(l),
        None => owned("plaintext"),
    };
    FileEntry {
        name: file_name,
        is_dir: attrs.is_dir,
        size: match attrs.size {
            Some(v) => v,
            None => 0,
        },
        modified: match attrs.mtime {
            Some(v) => v as u64,
            None => 0,
        },
        permissions: match attrs.permissions {
            Some(v) => v,
            None => 0,
        },
        owner: lookup_account(attrs.uid, passwd_map),
        group: lookup_account(attrs.gid, group_map),
        editable,
        language: language_name,
    }
}

pub(crate) fn copy_optional(value: &Option<String>) -> (copy: Option<String>)
    ensures
        copy == *value,
{
    match value {
        Some(v) => Some(v.clone()),
        None => None,
    }
}

impl FileEntry {
    /// A field-for-field copy.
    pub fn duplicate(&self) -> (copy: FileEntry)
        ensures
            copy == *self,
    {
        FileEntry {
            name: self.name.clone(),
            is_dir: self.is_dir,
            size: self.size,
            modified: self.modified,
            permissions: self.permissions,
            owner: copy_optional(&self.owner),
            group: copy_optional(&self.group),
            editable: self.editable,
            language: self.language.clone(),
        }
    }
}

/// One page of a directory listing.
#[derive(Clone, Debug)]
pub struct SftpLsPagedResult {
    pub items: Vec<FileEntry>,
    pub offset: usize,
    pub limit: usize,
    pub next_offset: usize,
    pub has_more: bool,
    pub total: usize,
    pub total_known: bool,
}

/// The page of `limit` entries from `offset`: both are cut to the listing, the next page
/// starts where this one ends, and the total is known.
pub open spec fn page_matches(page: SftpLsPagedResult, entries: Seq<FileEntry>, offset: usize, limit: usize) -> bool {
    let total = entries.len();
    let start = if offset < total {
        offset as int
    } else {
        total as int
    };
    let end = if start + limit < total {
        start + limit
    } else {
        total as int
    };
    &&& page.items@ == entries.subrange(start, end)
    &&& page.offset == start
    &&& page.limit == limit
    &&& page.next_offset == end
    &&& page.has_more == (end < total)
    &&& page.total == total
    &&& page.total_known
}

pub fn slice_paged_entries(entries: &[FileEntry], offset: usize, limit: usize) -> (page: SftpLsPagedResult)
    ensures
        page_matches(page, entries@, offset, limit),
{
    let total = entries.len();
    let start: usize = if offset < total {
        offset
    } else {
        total
    };
    let end: usize = if limit < total - start {
        start + limit
    } else {
        total
    };
    let mut items: Vec<FileEntry> = Vec::new();
    let mut i: usize = start;
    while i < end
        invariant
            start <= i <= end <= entries@.len(),
            items@ == entries@.subrange(start as int, i as int),
        decreases end - i,
    {
        items.push(entries[i].duplicate());
        i += 1;
        assert(items@ =~= entries@.subrange(start as int, i as int));
    }
    SftpLsPagedResult {
        items,
        offset: start,
        limit,
        next_offset: end,
        has_more: end < total,
        total,
        total_known: true,
    }
}


/// What the remote side of a streamed download sends to the reader.
#[derive(Clone, Debug, PartialEq, Eq)]
pub enum SftpStreamMessage {
    Data(Vec<u8>),
    End,
    Error(String),
}

/// How the reader of a streamed download finished.
#[derive(Clone, Debug, PartialEq, Eq)]
pub enum SftpStreamCompletion {
    Consumed,
    Failed(String),
    Cancelled,
}


/// Connection settings of a dedicated SFTP session.
#[derive(Clone, Debug)]
pub struct SshConfig {
    pub host: String,
    pub port: u16,
    pub username: String,
    pub password: Option<String>,
    pub private_key_path: Option<String>,
    pub passphrase: Option<String>,
    pub connect_timeout: Option<u64>,
    pub keep_alive_interval: Option<u64>,
    pub jump_host: Option<String>,
    pub jump_port: Option<u16>,
    pub jump_username: Option<String>,
    pub jump_auth_type: Option<String>,
    pub jump_password: Option<String>,
    pub jump_private_key_path: Option<String>,
    pub jump_passphrase: Option<String>,
}

/// The jump host of an SFTP connection, by the same rules as for terminal sessions.
pub fn extract_jump_host(config: &SshConfig) -> (jump: Option<crate::ssh_config::JumpHostConfig>)
    ensures
        crate::ssh_config::jump_host_matches(
            jump,
            crate::ssh_config::opt_view(config.jump_host),
            config.jump_port,
            crate::ssh_config::opt_view(config.jump_username),
            crate::ssh_config::opt_view(config.jump_auth_type),
            crate::ssh_config::opt_view(config.jump_password),
            crate::ssh_config::opt_view(config.jump_private_key_path),
            crate::ssh_config::opt_view(config.jump_passphrase),
            config.connect_timeout,
        ),
{
    crate::ssh_config::jump_host_from(
        &config.jump_host,
        config.jump_port,
        &config.jump_username,
        &config.jump_auth_type,
        &config.jump_password,
        &config.jump_private_key_path,
        &config.jump_passphrase,
        config.connect_timeout,
    )
}

/// A remote text file opened for editing.
#[derive(Clone, Debug)]
pub struct SftpOpenTextFileResult {
    pub content: String,
    pub file: FileEntry,
    pub cas_token: String,
    pub encoding: String,
    pub line_ending: String,
}

/// A remote text file after it was saved.
#[derive(Clone, Debug)]
pub struct SftpSaveTextFileResult {
    pub file: FileEntry,
    pub cas_token: String,
    pub encoding: String,
    pub line_ending: String,
}


/// The SHA-256 digest of some bytes.
pub uninterp spec fn sha256(bytes: Seq<u8>) -> Seq<u8>;

/// Calls `sha2::Sha256::digest`; the digest is named, and it is 32 bytes long.
#[verifier::external_body]
fn sha256_digest(bytes: &[u8]) -> (digest: Vec<u8>)
    ensures
        digest@ == sha256(bytes@),
        digest@.len() == 32,
{
    sha2::Sha256::digest(bytes).to_vec()
}

/// Bytes as lower-case hexadecimal, two digits each.
pub open spec fn lower_hex(bytes: Seq<u8>) -> Seq<char>
    decreases bytes.len(),
{
    if bytes.len() == 0 {
        seq![]
    } else {
        lower_hex(bytes.drop_last()) + seq![
            crate::text::hex_digit_char(bytes.last() as nat / 16),
            crate::text::hex_digit_char(bytes.last() as nat % 16),
        ]
    }
}

pub fn lower_hex_string(bytes: &[u8]) -> (hex: String)
    ensures
        hex@ == lower_hex(bytes@),
{
    let mut out: Vec<char> = Vec::new();
    let mut i: usize = 0;
    while i < bytes.len()
        invariant
            i <= bytes@.len(),
            out@ == lower_hex(bytes@.take(i as int)),
        decreases bytes@.len() - i,
    {
        let b = bytes[i];
        assert(bytes@.take(i + 1).drop_last() =~= bytes@.take(i as int));
        out.push(crate::text::hex_digit((b / 16) as u16));
        out.push(crate::text::hex_digit((b % 16) as u16));
        i += 1;
        assert(out@ =~= lower_hex(bytes@.take(i as int)));
    }
    assert(bytes@.take(bytes@.len() as int) =~= bytes@);
    crate::text::string_of(out.as_slice())
}

/// The compare-and-swap token of a file's bytes: `sha256:` and their digest in hex.
pub open spec fn spec_cas_token(bytes: Seq<u8>) -> Seq<char> {
    "sha256:"@ + lower_hex(sha256(bytes))
}

pub fn build_text_cas_token(bytes: &[u8]) -> (token: String)
    ensures
        token@ == spec_cas_token(bytes@),
{
    let digest = sha256_digest(bytes);
    let hex = lower_hex_string(digest.as_slice());
    crate::text::concat("sha256:", hex.as_str())
}


/// What is known of a remote file before it is overwritten: its bytes, and its modification
/// time and size as the server reports them (0 when it does not).
#[derive(Clone, Debug)]
pub struct OriginalFile {
    pub bytes: Vec<u8>,
    pub modified: u64,
    pub size: u64,
}

/// What a save does once its preconditions hold.
#[derive(Clone, Copy, Debug, PartialEq, Eq, Structural)]
pub enum SaveDecision {
    /// The remote file already holds exactly the new bytes.
    Unchanged,
    /// The new bytes are written.
    Write,
}

pub open spec fn original_bytes(original: Option<OriginalFile>) -> Seq<u8> {
    match original {
        Some(o) => o.bytes@,
        None => Seq::<u8>::empty(),
    }
}

/// Why a save is refused, checked in this order: a token was given but the file is gone;
/// the token does not match and the file does not already hold the new bytes; the
/// modification time differs from the expected one; the size differs; a time or size was
/// expected but the file is gone.
pub open spec fn spec_save_error(
    original: Option<OriginalFile>,
    encoded: Seq<u8>,
    expected_modified: Option<u64>,
    expected_size: Option<u64>,
    token: Option<Seq<char>>,
) -> Option<Seq<char>> {
    if token is Some && original is None {
        Some("CAS mismatch: remote file no longer exists"@)
    } else if token is Some && spec_cas_token(original_bytes(original)) != token.unwrap() && original_bytes(original)
        != encoded {
        Some("CAS mismatch: remote file changed; please reopen before saving"@)
    } else if original is Some && expected_modified is Some && original.unwrap().modified
        != expected_modified.unwrap() {
        Some(
            "CAS mismatch: remote file changed (mtime "@ + crate::text::decimal(original.unwrap().modified as nat)
                + " != expected "@ + crate::text::decimal(expected_modified.unwrap() as nat) + ")"@,
        )
    } else if original is Some && expected_size is Some && original.unwrap().size != expected_size.unwrap() {
        Some(
            "CAS mismatch: remote file changed (size "@ + crate::text::decimal(original.unwrap().size as nat)
                + " != expected "@ + crate::text::decimal(expected_size.unwrap() as nat) + ")"@,
        )
    } else if original is None && (expected_modified is Some || expected_size is Some) {
        Some("CAS mismatch: remote file no longer exists"@)
    } else {
        None
    }
}

/// Just before a saved text replaces the remote file, the file is looked at again:
/// `original` is what it held when the save began (nothing if it did not exist), `current`
/// what is there now (its bytes when it existed, else whether it exists; the bytes of a
/// file that was absent are not read) or the error of looking. The save goes on only when
/// the file is unchanged: it still holds exactly the original bytes, or it still does not
/// exist.
pub open spec fn spec_pre_commit_error(original: Option<Seq<u8>>, current: Result<Option<Seq<u8>>, Seq<char>>) -> Option<
    Seq<char>,
> {
    match current {
        Err(e) => Some("Pre-commit verify Error: "@ + e),
        Ok(now) => match original {
            Some(o) => if now == Some(o) {
                None
            } else {
                Some("CAS mismatch: remote file changed while saving; please reopen before saving"@)
            },
            None => if now is None {
                None
            } else {
                Some("CAS mismatch: remote file was created while saving; please reopen before saving"@)
            },
        },
    }
}

/// Checks the remote file just before the saved text replaces it (see
/// `spec_pre_commit_error`).
pub fn check_pre_commit(original: Option<&[u8]>, current: Result<Option<&[u8]>, String>) -> (result: Result<(), String>)
    ensures
        match result {
            Ok(()) => spec_pre_commit_error(
                match original {
                    Some(o) => Some(o@),
                    None => None,
                },
                match current {
                    Ok(Some(b)) => Ok(Some(b@)),
                    Ok(None) => Ok(None),
                    Err(e) => Err(e@),
                },
            ) is None,
            Err(e) => spec_pre_commit_error(
                match original {
                    Some(o) => Some(o@),
                    None => None,
                },
                match current {
                    Ok(Some(b)) => Ok(Some(b@)),
                    Ok(None) => Ok(None),
                    Err(e) => Err(e@),
                },
            ) == Some(e@),
        },
{
    match current {
        Err(e) => Err(crate::text::concat("Pre-commit verify Error: ", e.as_str())),
        Ok(now) => match original {
            Some(o) => {
                let same = match now {
                    Some(b) => crate::bytes::bytes_eq(b, o),
                    None => false,
                };
                if same {
                    Ok(())
                } else {
                    Err(owned("CAS mismatch: remote file changed while saving; please reopen before saving"))
                }
            },
            None => match now {
                None => Ok(()),
                Some(_) => Err(owned("CAS mismatch: remote file was created while saving; please reopen before saving")),
            },
        },
    }
}

/// Checks a save against the file as it is now and decides whether anything has to be
/// written: nothing when the file already holds the new bytes.
pub fn check_save_preconditions(
    original: &Option<OriginalFile>,
    encoded: &[u8],
    expected_modified: Option<u64>,
    expected_size: Option<u64>,
    expected_cas_token: Option<&str>,
) -> (decision: Result<SaveDecision, String>)
    ensures
        match decision {
            Ok(d) => spec_save_error(
                *original,
                encoded@,
                expected_modified,
                expected_size,
                crate::ssh_config::opt_str_view(expected_cas_token),
            ) is None && (d == SaveDecision::Unchanged <==> (original is Some && original_bytes(*original)
                == encoded@)),
            Err(e) => spec_save_error(
                *original,
                encoded@,
                expected_modified,
                expected_size,
                crate::ssh_config::opt_str_view(expected_cas_token),
            ) == Some(e@),
        },
{
    let same_bytes = match original {
        Some(o) => crate::bytes::bytes_eq(o.bytes.as_slice(), encoded),
        None => false,
    };
    if let Some(expected) = expected_cas_token {
        match original {
            None => {
                return Err(owned("CAS mismatch: remote file no longer exists"));
            },
            Some(o) => {
                let current = build_text_cas_token(o.bytes.as_slice());
                let matches = crate::text::chars_eq(chars_of(current.as_str()).as_slice(), chars_of(expected).as_slice());
                if !matches && !same_bytes {
                    return Err(owned("CAS mismatch: remote file changed; please reopen before saving"));
                }
            },
        }
    }
    if let (Some(o), Some(expected)) = (original, expected_modified) {
        if o.modified != expected {
            let a = crate::text::concat("CAS mismatch: remote file changed (mtime ", crate::text::decimal_string(o.modified).as_str());
            let b = crate::text::concat(a.as_str(), " != expected ");
            let c = crate::text::concat(b.as_str(), crate::text::decimal_string(expected).as_str());
            return Err(crate::text::concat(c.as_str(), ")"));
        }
    }
    if let (Some(o), Some(expected)) = (original, expected_size) {
        if o.size != expected {
            let a = crate::text::concat("CAS mismatch: remote file changed (size ", crate::text::decimal_string(o.size).as_str());
            let b = crate::text::concat(a.as_str(), " != expected ");
            let c = crate::text::concat(b.as_str(), crate::text::decimal_string(expected).as_str());
            return Err(crate::text::concat(c.as_str(), ")"));
        }
    }
    if original.is_none() && (expected_modified.is_some() || expected_size.is_some()) {
        return Err(owned("CAS mismatch: remote file no longer exists"));
    }
    if same_bytes {
        Ok(SaveDecision::Unchanged)
    } else {
        Ok(SaveDecision::Write)
    }
}

/// A remote path split at its last `/` into the directory (`/` for a file at the root,
/// empty for a bare name) and the name.
pub open spec fn spec_split_remote_path(path: Seq<char>) -> (Seq<char>, Seq<char>) {
    let i = segment_start(path, path.len() as int);
    if i == 0 {
        (Seq::<char>::empty(), path)
    } else if i == 1 {
        ("/"@, path.subrange(1, path.len() as int))
    } else {
        (path.subrange(0, i - 1), path.subrange(i, path.len() as int))
    }
}

pub fn split_remote_path(path: &str) -> (parts: (String, String))
    ensures
        parts.0@ == spec_split_remote_path(path@).0,
        parts.1@ == spec_split_remote_path(path@).1,
{
    let p = chars_of(path);
    let mut i: usize = p.len();
    while i > 0 && p[i - 1] != '/'
        invariant
            i <= p@.len(),
            p@ == path@,
            segment_start(path@, path@.len() as int) == segment_start(path@, i as int),
        decreases i,
    {
        i -= 1;
    }
    proof {
        lemma_segment_start_bounds(path@, i as int);
    }
    if i == 0 {
        (String::new(), owned(path))
    } else if i == 1 {
        (owned("/"), crate::text::string_of(copy_chars(p.as_slice(), 1, p.len()).as_slice()))
    } else {
        (
            crate::text::string_of(copy_chars(p.as_slice(), 0, i - 1).as_slice()),
            crate::text::string_of(copy_chars(p.as_slice(), i, p.len()).as_slice()),
        )
    }
}

/// The path of a file named `name` next to another in `parent`.
pub open spec fn spec_sibling_path(parent: Seq<char>, name: Seq<char>) -> Seq<char> {
    if parent == "/"@ {
        "/"@ + name
    } else if parent.len() == 0 {
        name
    } else {
        parent + "/"@ + name
    }
}

pub fn sibling_path(parent: &str, name: &str) -> (path: String)
    ensures
        path@ == spec_sibling_path(parent@, name@),
{
    let p = chars_of(parent);
    if chars_eq_str(p.as_slice(), "/") {
        crate::text::concat("/", name)
    } else if p.len() == 0 {
        owned(name)
    } else {
        let a = crate::text::concat(parent, "/");
        crate::text::concat(a.as_str(), name)
    }
}


/// The name of a scratch file kept next to `name` while it is replaced: a dot, the name,
/// a dot, the tag (such as `tmp`, `bak`, `download.tmp`), a dot, the process id, a dot,
/// and a time stamp, so that it is hidden and unique.
pub open spec fn spec_scratch_file_name(name: Seq<char>, tag: Seq<char>, pid: u32, stamp: u128) -> Seq<char> {
    "."@ + name + "."@ + tag + "."@ + crate::text::decimal(pid as nat) + "."@ + crate::text::decimal(stamp as nat)
}

pub fn scratch_file_name(name: &str, tag: &str, pid: u32, stamp: u128) -> (scratch: String)
    ensures
        scratch@ == spec_scratch_file_name(name@, tag@, pid, stamp),
{
    let a = crate::text::concat(".", name);
    let a = crate::text::concat(a.as_str(), ".");
    let a = crate::text::concat(a.as_str(), tag);
    let a = crate::text::concat(a.as_str(), ".");
    let a = crate::text::concat(a.as_str(), crate::text::decimal_string(pid as u64).as_str());
    let a = crate::text::concat(a.as_str(), ".");
    crate::text::concat(a.as_str(), crate::text::decimal_string_u128(stamp).as_str())
}


/// Names in code point order (which is the byte order of their UTF-8, the order of
/// `String`'s comparison): `a` comes no later than `b`.
pub open spec fn name_le(a: Seq<char>, b: Seq<char>) -> bool
    decreases a.len(),
{
    if a.len() == 0 {
        true
    } else if b.len() == 0 {
        false
    } else if (a[0] as u32) < (b[0] as u32) {
        true
    } else if (a[0] as u32) > (b[0] as u32) {
        false
    } else {
        name_le(a.drop_first(), b.drop_first())
    }
}

pub proof fn lemma_name_le_total(a: Seq<char>, b: Seq<char>)
    ensures
        name_le(a, b) || name_le(b, a),
    decreases a.len(),
{
    if a.len() > 0 && b.len() > 0 && a[0] as u32 == b[0] as u32 {
        lemma_name_le_total(a.drop_first(), b.drop_first());
    }
}

pub proof fn lemma_name_le_transitive(a: Seq<char>, b: Seq<char>, c: Seq<char>)
    requires
        name_le(a, b),
        name_le(b, c),
    ensures
        name_le(a, c),
    decreases a.len(),
{
    if a.len() > 0 && b.len() > 0 && c.len() > 0 && a[0] as u32 == b[0] as u32 && b[0] as u32 == c[0] as u32 {
        lemma_name_le_transitive(a.drop_first(), b.drop_first(), c.drop_first());
    }
}

pub(crate) fn names_le(a: &[char], b: &[char]) -> (le: bool)
    ensures
        le == name_le(a@, b@),
{
    let mut i: usize = 0;
    assert(a@.subrange(0, a@.len() as int) =~= a@);
    assert(b@.subrange(0, b@.len() as int) =~= b@);
    while i < a.len() && i < b.len() && a[i] == b[i]
        invariant
            i <= a@.len(),
            i <= b@.len(),
            name_le(a@, b@) == name_le(a@.subrange(i as int, a@.len() as int), b@.subrange(i as int, b@.len() as int)),
        decreases a@.len() - i,
    {
        let ghost sa = a@.subrange(i as int, a@.len() as int);
        let ghost sb = b@.subrange(i as int, b@.len() as int);
        assert(sa.drop_first() =~= a@.subrange(i + 1, a@.len() as int));
        assert(sb.drop_first() =~= b@.subrange(i + 1, b@.len() as int));
        i += 1;
    }
    let ghost sa = a@.subrange(i as int, a@.len() as int);
    let ghost sb = b@.subrange(i as int, b@.len() as int);
    if i == a.len() {
        assert(sa.len() == 0);
        true
    } else if i == b.len() {
        assert(sa.len() > 0 && sb.len() == 0);
        false
    } else {
        assert(sa.len() > 0 && sb.len() > 0);
        assert(sa[0] == a@[i as int] && sb[0] == b@[i as int]);
        assert(a@[i as int] != b@[i as int]);
        assert(a@[i as int] as u32 != b@[i as int] as u32) by {
            vstd::utf8::char_u32_cast(a@[i as int], a@[i as int] as u32);
            vstd::utf8::char_u32_cast(b@[i as int], b@[i as int] as u32);
        }
        (a[i] as u32) < (b[i] as u32)
    }
}

pub open spec fn sorted_by_name(entries: Seq<FileEntry>) -> bool {
    forall|i: int, j: int| 0 <= i < j < entries.len() ==> name_le(#[trigger] entries[i].name@, #[trigger] entries[j].name@)
}

/// Orders entries by name (code point order), keeping every entry.
pub fn sort_file_entries(entries: &mut Vec<FileEntry>)
    ensures
        sorted_by_name(final(entries)@),
        final(entries)@.to_multiset() == old(entries)@.to_multiset(),
{
    broadcast use vstd::seq_lib::group_to_multiset_ensures;

    let ghost input = entries@;
    let mut out: Vec<FileEntry> = Vec::new();
    let mut i: usize = 0;
    while i < entries.len()
        invariant
            i <= entries@.len(),
            entries@ == input,
            sorted_by_name(out@),
            out@.to_multiset() == input.take(i as int).to_multiset(),
        decreases entries@.len() - i,
    {
        let e = entries[i].duplicate();
        let name = chars_of(e.name.as_str());
        let mut k: usize = 0;
        while k < out.len() && names_le(chars_of(out[k].name.as_str()).as_slice(), name.as_slice())
            invariant
                k <= out@.len(),
                name@ == e.name@,
                forall|j: int| 0 <= j < k ==> name_le(#[trigger] out@[j].name@, e.name@),
            decreases out@.len() - k,
        {
            k += 1;
        }
        proof {
            if k < out@.len() {
                lemma_name_le_total(out@[k as int].name@, e.name@);
                assert forall|j: int| k <= j < out@.len() implies name_le(e.name@, #[trigger] out@[j].name@) by {
                    if j > k {
                        assert(name_le(out@[k as int].name@, out@[j].name@));
                        lemma_name_le_transitive(e.name@, out@[k as int].name@, out@[j].name@);
                    }
                }
            }
        }
        let ghost before = out@;
        out.insert(k, e);
        proof {
            assert(out@ == before.insert(k as int, entries@[i as int]));
            assert(sorted_by_name(out@)) by {
                assert forall|a: int, b: int| 0 <= a < b < out@.len() implies name_le(
                    #[trigger] out@[a].name@,
                    #[trigger] out@[b].name@,
                ) by {
                    if a < k && b == k {
                    } else if a == k && b > k {
                        assert(out@[b] == before[b - 1]);
                    } else if a < k && b > k {
                        assert(out@[b] == before[b - 1]);
                    } else if a > k {
                        assert(out@[a] == before[a - 1]);
                        assert(out@[b] == before[b - 1]);
                    }
                }
            }
            assert(input.take(i + 1) =~= input.take(i as int).push(input[i as int]));
            vstd::seq_lib::to_multiset_insert(before, k as int, input[i as int]);
            vstd::seq_lib::to_multiset_build(input.take(i as int), input[i as int]);
        }
        i += 1;
    }
    assert(input.take(input.len() as int) =~= input);
    *entries = out;
}

pub proof fn lemma_name_le_antisymmetric(a: Seq<char>, b: Seq<char>)
    requires
        name_le(a, b),
        name_le(b, a),
    ensures
        a == b,
    decreases a.len(),
{
    if a.len() > 0 && b.len() > 0 {
        lemma_name_le_antisymmetric(a.drop_first(), b.drop_first());
        assert(a[0] as u32 == b[0] as u32);
        vstd::utf8::char_u32_cast(a[0], a[0] as u32);
        vstd::utf8::char_u32_cast(b[0], b[0] as u32);
        assert(a =~= seq![a[0]] + a.drop_first());
        assert(b =~= seq![b[0]] + b.drop_first());
    } else {
        assert(a.len() == 0 && b.len() == 0);
        assert(a =~= b);
    }
}

/// The lock key of each path a mutation touches.
pub open spec fn spec_lock_key(session_id: Seq<char>, path: Seq<char>) -> Seq<char> {
    spec_cache_key(session_id, spec_normalize_lock_path(path))
}

pub open spec fn strictly_sorted(keys: Seq<String>) -> bool {
    forall|i: int, j: int|
        0 <= i < j < keys.len() ==> name_le(#[trigger] keys[i]@, #[trigger] keys[j]@) && keys[i]@ != keys[j]@
}

pub open spec fn has_key(keys: Seq<String>, key: Seq<char>) -> bool {
    exists|a: int| 0 <= a < keys.len() && #[trigger] keys[a]@ == key
}

/// Adds a key to keys in strict order, unless it is there.
fn insert_lock_key(out: &mut Vec<String>, key: String)
    requires
        strictly_sorted(old(out)@),
    ensures
        strictly_sorted(final(out)@),
        has_key(final(out)@, key@),
        forall|x: Seq<char>| #[trigger] has_key(final(out)@, x) <==> (has_key(old(out)@, x) || x == key@),
{
    let ghost before = out@;
    let kc = chars_of(key.as_str());
    let mut k: usize = 0;
    while k < out.len() && names_le(chars_of(out[k].as_str()).as_slice(), kc.as_slice())
        && !crate::text::chars_eq(chars_of(out[k].as_str()).as_slice(), kc.as_slice())
        invariant
            k <= out@.len(),
            kc@ == key@,
            out@ == before,
            forall|j: int| 0 <= j < k ==> name_le(#[trigger] out@[j]@, key@) && out@[j]@ != key@,
        decreases out@.len() - k,
    {
        k += 1;
    }
    if k < out.len() && crate::text::chars_eq(chars_of(out[k].as_str()).as_slice(), kc.as_slice()) {
        assert(out@[k as int]@ == key@);
        return;
    }
    proof {
        if k < out@.len() {
            lemma_name_le_total(out@[k as int]@, key@);
            assert forall|j: int| k <= j < out@.len() implies name_le(key@, #[trigger] out@[j]@) && key@ != out@[j]@ by {
                if j > k {
                    lemma_name_le_transitive(key@, out@[k as int]@, out@[j]@);
                    if key@ == out@[j]@ {
                        lemma_name_le_antisymmetric(key@, out@[k as int]@);
                    }
                }
            }
        }
    }
    out.insert(k, key);
    proof {
        assert(out@ == before.insert(k as int, key));
        assert forall|a: int, b: int| 0 <= a < b < out@.len() implies name_le(#[trigger] out@[a]@, #[trigger] out@[b]@)
            && out@[a]@ != out@[b]@ by {
            if a < k && b == k {
            } else if a == k && b > k {
                assert(out@[b] == before[b - 1]);
            } else if a < k && b > k {
                assert(out@[b] == before[b - 1]);
                lemma_name_le_transitive(out@[a]@, out@[k as int]@, out@[b]@);
            } else if a > k {
                assert(out@[a] == before[a - 1]);
                assert(out@[b] == before[b - 1]);
            }
        }
        assert(out@[k as int]@ == key@);
        assert forall|x: Seq<char>| #[trigger] has_key(out@, x) <==> (has_key(before, x) || x == key@) by {
            if has_key(out@, x) {
                let a = choose|a: int| 0 <= a < out@.len() && #[trigger] out@[a]@ == x;
                if a < k {
                    assert(before[a]@ == x);
                } else if a > k {
                    assert(before[a - 1]@ == x);
                }
            }
            if has_key(before, x) {
                let a = choose|a: int| 0 <= a < before.len() && #[trigger] before[a]@ == x;
                if a < k {
                    assert(out@[a]@ == x);
                } else {
                    assert(out@[a + 1]@ == x);
                }
            }
        }
    }
}

/// The locks a mutation of several paths takes, in the order it takes them: each path's key
/// once, in code point order, so that two mutations never wait on each other in a cycle.
pub fn path_lock_keys(session_id: &str, paths: &[String]) -> (keys: Vec<String>)
    ensures
        strictly_sorted(keys@),
        forall|x: Seq<char>| #[trigger] has_key(keys@, x) <==> exists|j: int| 0 <= j < paths@.len() && x == spec_lock_key(session_id@, #[trigger] paths@[j]@),
{
    let mut out: Vec<String> = Vec::new();
    let mut i: usize = 0;
    while i < paths.len()
        invariant
            i <= paths@.len(),
            strictly_sorted(out@),
            forall|x: Seq<char>| #[trigger] has_key(out@, x) <==> exists|j: int| 0 <= j < i && x == spec_lock_key(session_id@, #[trigger] paths@[j]@),
        decreases paths@.len() - i,
    {
        let key = mutation_lock_key(session_id, paths[i].as_str());
        let ghost before = out@;
        insert_lock_key(&mut out, key);
        proof {
            assert forall|x: Seq<char>| #[trigger] has_key(out@, x) <==> exists|j: int| 0 <= j < i + 1 && x == spec_lock_key(session_id@, #[trigger] paths@[j]@) by {
                if has_key(out@, x) && !has_key(before, x) {
                    assert(x == spec_lock_key(session_id@, paths@[i as int]@));
                }
                if exists|j: int| 0 <= j < i + 1 && x == spec_lock_key(session_id@, #[trigger] paths@[j]@) {
                    let j = choose|j: int| 0 <= j < i + 1 && x == spec_lock_key(session_id@, #[trigger] paths@[j]@);
                    if j < i {
                        assert(has_key(before, x));
                    }
                }
            }
        }
        i += 1;
    }
    out
}

/// The page size asked for, 200 by default, kept between 1 and 1000.
pub fn page_limit(limit: Option<usize>) -> (size: usize)
    ensures
        size == match limit {
            Some(l) => if l < 1 {
                1
            } else if l > 1000 {
                1000
            } else {
                l
            },
            None => 200,
        },
{
    match limit {
        Some(l) => if l < 1 {
            1
        } else if l > 1000 {
            1000
        } else {
            l
        },
        None => 200,
    }
}

/// Whether a name read from a directory is listed (`.` and `..` are not).
pub fn is_listed_name(name: &str) -> (listed: bool)
    ensures
        listed == (name@ != "."@ && name@ != ".."@),
{
    let chars = chars_of(name);
    !(chars_eq_str(chars.as_slice(), ".") || chars_eq_str(chars.as_slice(), ".."))
}

/// A page of a listing still being read: as a page of the entries read so far, except that
/// more may follow until the directory has been read to its end, and only then is the
/// total known.
pub open spec fn listing_page_matches(
    page: SftpLsPagedResult,
    entries: Seq<FileEntry>,
    offset: usize,
    limit: usize,
    exhausted: bool,
) -> bool {
    let total = entries.len();
    let start = if offset < total {
        offset as int
    } else {
        total as int
    };
    let end = if start + limit < total {
        start + limit
    } else {
        total as int
    };
    &&& page.items@ == entries.subrange(start, end)
    &&& page.offset == start
    &&& page.limit == limit
    &&& page.next_offset == end
    &&& page.has_more == (!exhausted || end < total)
    &&& page.total == total
    &&& page.total_known == exhausted
}

/// Where a page ends at most: `offset + limit`, or the largest `usize` when that overflows.
pub open spec fn saturating_end(offset: usize, limit: usize) -> int {
    if offset + limit > usize::MAX {
        usize::MAX as int
    } else {
        offset + limit
    }
}

pub open spec fn is_dir_entry(e: FileEntry) -> bool {
    e.is_dir
}

pub open spec fn is_file_entry(e: FileEntry) -> bool {
    !e.is_dir
}

/// The entries of a directory read batch by batch: directories first, then files, each
/// group by name.
pub struct DirectoryListing {
    pub directories: Vec<FileEntry>,
    pub files: Vec<FileEntry>,
    /// Whether the directory has been read to its end.
    pub exhausted: bool,
}

impl DirectoryListing {
    pub open spec fn entries(&self) -> Seq<FileEntry> {
        self.directories@ + self.files@
    }

    pub fn new() -> (listing: Self)
        ensures
            listing.directories@.len() == 0,
            listing.files@.len() == 0,
            !listing.exhausted,
    {
        DirectoryListing { directories: Vec::new(), files: Vec::new(), exhausted: false }
    }

    /// Adds a batch read from the directory, each entry to its group, and records whether
    /// the directory has been read to its end.
    pub fn add_batch(&mut self, items: &[FileEntry], exhausted: bool)
        ensures
            sorted_by_name(final(self).directories@),
            sorted_by_name(final(self).files@),
            final(self).directories@.to_multiset() == (old(self).directories@ + items@.filter(
                |e: FileEntry| is_dir_entry(e),
            )).to_multiset(),
            final(self).files@.to_multiset() == (old(self).files@ + items@.filter(|e: FileEntry| is_file_entry(e))).to_multiset(),
            final(self).exhausted == exhausted,
    {
        let ghost old_dirs = self.directories@;
        let ghost old_files = self.files@;
        let mut i: usize = 0;
        assert(items@.take(0) =~= Seq::<FileEntry>::empty());
        assert(old_dirs + items@.take(0).filter(|e: FileEntry| is_dir_entry(e)) =~= old_dirs);
        assert(old_files + items@.take(0).filter(|e: FileEntry| is_file_entry(e)) =~= old_files);
        while i < items.len()
            invariant
                i <= items@.len(),
                self.directories@ == old_dirs + items@.take(i as int).filter(|e: FileEntry| is_dir_entry(e)),
                self.files@ == old_files + items@.take(i as int).filter(|e: FileEntry| is_file_entry(e)),
            decreases items@.len() - i,
        {
            let e = items[i].duplicate();
            let ghost t = items@.take(i + 1);
            proof {
                assert(t =~= items@.take(i as int).push(items@[i as int]));
                items@.take(i as int).lemma_filter_push(items@[i as int], |e: FileEntry| is_dir_entry(e));
                items@.take(i as int).lemma_filter_push(items@[i as int], |e: FileEntry| is_file_entry(e));
            }
            if e.is_dir {
                self.directories.push(e);
            } else {
                self.files.push(e);
            }
            assert(self.directories@ =~= old_dirs + t.filter(|e: FileEntry| is_dir_entry(e)));
            assert(self.files@ =~= old_files + t.filter(|e: FileEntry| is_file_entry(e)));
            i += 1;
        }
        assert(items@.take(items@.len() as int) =~= items@);
        sort_file_entries(&mut self.directories);
        sort_file_entries(&mut self.files);
        self.exhausted = exhausted;
    }

    /// The page from `offset` of `limit` entries, once the directory has been read to its
    /// end or far enough for the page; nothing while more must be read first.
    pub fn page(&self, offset: usize, limit: usize) -> (page: Option<SftpLsPagedResult>)
        ensures
            match page {
                Some(p) => (self.exhausted || self.entries().len() >= saturating_end(offset, limit))
                    && listing_page_matches(p, self.entries(), offset, limit, self.exhausted),
                None => !self.exhausted && self.entries().len() < saturating_end(offset, limit),
            },
    {
        let target_end = offset.saturating_add(limit);
        let mut all: Vec<FileEntry> = Vec::new();
        let mut i: usize = 0;
        while i < self.directories.len()
            invariant
                i <= self.directories@.len(),
                all@ == self.directories@.take(i as int),
            decreases self.directories@.len() - i,
        {
            all.push(self.directories[i].duplicate());
            i += 1;
            assert(all@ =~= self.directories@.take(i as int));
        }
        let mut j: usize = 0;
        assert(self.directories@.take(i as int) =~= self.directories@);
        while j < self.files.len()
            invariant
                j <= self.files@.len(),
                all@ == self.directories@ + self.files@.take(j as int),
            decreases self.files@.len() - j,
        {
            all.push(self.files[j].duplicate());
            j += 1;
            assert(all@ =~= self.directories@ + self.files@.take(j as int));
        }
        assert(self.files@.take(j as int) =~= self.files@);
        if !self.exhausted && all.len() < target_end {
            return None;
        }
        let p = slice_paged_entries(all.as_slice(), offset, limit);
        Some(
            SftpLsPagedResult {
                items: p.items,
                offset: p.offset,
                limit: p.limit,
                next_offset: p.next_offset,
                has_more: !self.exhausted || p.has_more,
                total: p.total,
                total_known: self.exhausted,
            },
        )
    }
}

/// Directories first, then files, each group by name.
pub open spec fn listing_ordered(entries: Seq<FileEntry>) -> bool {
    forall|i: int, j: int|
        0 <= i < j < entries.len() ==> (#[trigger] entries[i].is_dir && !#[trigger] entries[j].is_dir) || (
        entries[i].is_dir == entries[j].is_dir && name_le(entries[i].name@, entries[j].name@))
}

proof fn lemma_filter_split_multiset(s: Seq<FileEntry>)
    ensures
        s.filter(|e: FileEntry| is_dir_entry(e)).to_multiset().add(s.filter(|e: FileEntry| is_file_entry(e)).to_multiset())
            == s.to_multiset(),
    decreases s.len(),
{
    broadcast use vstd::seq_lib::group_to_multiset_ensures;

    if s.len() == 0 {
        assert(s.filter(|e: FileEntry| is_dir_entry(e)) =~= Seq::<FileEntry>::empty());
        assert(s.filter(|e: FileEntry| is_file_entry(e)) =~= Seq::<FileEntry>::empty());
        assert(s.filter(|e: FileEntry| is_dir_entry(e)).to_multiset().add(s.filter(|e: FileEntry| is_file_entry(e)).to_multiset())
            =~= s.to_multiset());
    } else {
        let init = s.drop_last();
        lemma_filter_split_multiset(init);
        assert(s =~= init.push(s.last()));
        init.lemma_filter_push(s.last(), |e: FileEntry| is_dir_entry(e));
        init.lemma_filter_push(s.last(), |e: FileEntry| is_file_entry(e));
        vstd::seq_lib::to_multiset_build(init, s.last());
        if s.last().is_dir {
            vstd::seq_lib::to_multiset_build(init.filter(|e: FileEntry| is_dir_entry(e)), s.last());
        } else {
            vstd::seq_lib::to_multiset_build(init.filter(|e: FileEntry| is_file_entry(e)), s.last());
        }
        assert(s.filter(|e: FileEntry| is_dir_entry(e)).to_multiset().add(s.filter(|e: FileEntry| is_file_entry(e)).to_multiset())
            =~= s.to_multiset());
    }
}

/// A listing in the order it is shown: directories first, then files, each group by name;
/// every entry kept.
pub fn listing_order(entries: &[FileEntry]) -> (ordered: Vec<FileEntry>)
    ensures
        listing_ordered(ordered@),
        ordered@.to_multiset() == entries@.to_multiset(),
{
    broadcast use vstd::seq_lib::group_to_multiset_ensures;

    let mut listing = DirectoryListing::new();
    listing.add_batch(entries, true);
    let ghost d = listing.directories@;
    let ghost f = listing.files@;
    proof {
        assert(Seq::<FileEntry>::empty() + entries@.filter(|e: FileEntry| is_dir_entry(e)) =~= entries@.filter(
            |e: FileEntry| is_dir_entry(e),
        ));
        assert(Seq::<FileEntry>::empty() + entries@.filter(|e: FileEntry| is_file_entry(e)) =~= entries@.filter(
            |e: FileEntry| is_file_entry(e),
        ));
        lemma_filter_split_multiset(entries@);
        assert forall|i: int| 0 <= i < d.len() implies #[trigger] d[i].is_dir by {
            assert(d.to_multiset().count(d[i]) > 0);
            assert(entries@.filter(|e: FileEntry| is_dir_entry(e)).to_multiset().count(d[i]) > 0);
            let w = entries@.filter(|e: FileEntry| is_dir_entry(e));
            vstd::seq_lib::to_multiset_contains(w, d[i]);
            let k = choose|k: int| 0 <= k < w.len() && w[k] == d[i];
            entries@.filter_lemma(|e: FileEntry| is_dir_entry(e));
        }
        assert forall|i: int| 0 <= i < f.len() implies !#[trigger] f[i].is_dir by {
            assert(f.to_multiset().count(f[i]) > 0);
            let w = entries@.filter(|e: FileEntry| is_file_entry(e));
            assert(w.to_multiset().count(f[i]) > 0);
            vstd::seq_lib::to_multiset_contains(w, f[i]);
            let k = choose|k: int| 0 <= k < w.len() && w[k] == f[i];
            entries@.filter_lemma(|e: FileEntry| is_file_entry(e));
        }
    }
    let mut ordered = listing.directories;
    let mut files = listing.files;
    ordered.append(&mut files);
    proof {
        assert(ordered@ == d + f);
        assert forall|i: int, j: int| 0 <= i < j < ordered@.len() implies (#[trigger] ordered@[i].is_dir
            && !#[trigger] ordered@[j].is_dir) || (ordered@[i].is_dir == ordered@[j].is_dir && name_le(
            ordered@[i].name@,
            ordered@[j].name@,
        )) by {
            if j < d.len() {
                assert(ordered@[i] == d[i] && ordered@[j] == d[j]);
            } else if i >= d.len() {
                assert(ordered@[i] == f[i - d.len()] && ordered@[j] == f[j - d.len()]);
            } else {
                assert(ordered@[i] == d[i] && ordered@[j] == f[j - d.len()]);
            }
        }
        vstd::seq_lib::lemma_multiset_commutative(d, f);
    }
    ordered
}


/// A listing entry is editable exactly when it is a file whose name has an editor
/// language, which it then carries (`plaintext` otherwise); a directory never is. Missing
/// size, time and permissions read as 0.
pub proof fn lemma_entry_editability(
    entry: FileEntry,
    file_name: String,
    attrs: FileAttrs,
    passwd: Map<u32, String>,
    groups: Map<u32, String>,
)
    requires
        entry_matches_attrs(entry, file_name, attrs, passwd, groups),
    ensures
        attrs.is_dir ==> !entry.editable,
        !attrs.is_dir && spec_text_language_for_path(file_name@) is Some ==> entry.editable
            && entry.language@ == spec_text_language_for_path(file_name@).unwrap(),
        spec_text_language_for_path(file_name@) is None ==> !entry.editable && entry.language@ == "plaintext"@,
        entry.is_dir == attrs.is_dir,
        attrs.size is None ==> entry.size == 0,
        attrs.size matches Some(n) ==> entry.size == n,
        attrs.mtime is None ==> entry.modified == 0,
        attrs.permissions is None ==> entry.permissions == 0,
{
}

/// A page holds at most `limit` entries, exactly those from its offset to its next
/// offset; more follow exactly when the next offset is before the end; an offset past the
/// end gives an empty page at the end.
pub proof fn lemma_page_bounds(page: SftpLsPagedResult, entries: Seq<FileEntry>, offset: usize, limit: usize)
    requires
        page_matches(page, entries, offset, limit),
    ensures
        page.items@.len() <= limit,
        page.items@.len() == page.next_offset - page.offset,
        page.offset <= page.next_offset <= entries.len(),
        offset <= entries.len() ==> page.offset == offset,
        offset >= entries.len() ==> page.items@.len() == 0 && page.offset == entries.len(),
        page.has_more <==> page.next_offset < entries.len(),
        page.total == entries.len(),
        forall|i: int| 0 <= i < page.items@.len() ==> page.items@[i] == entries[page.offset + i],
{
}

/// A text's line ending is `crlf` exactly when it has a CR followed by LF, `cr` when it has
/// a CR but never followed by LF, and `lf` when it has no CR.
pub proof fn lemma_detected_line_ending(s: Seq<char>)
    ensures
        spec_detect_line_ending(s) == "crlf"@ <==> (exists|i: int| 0 <= i < s.len() - 1 && #[trigger] s[i] == '\r' && s[i + 1] == '\n'),
        spec_detect_line_ending(s) == "cr"@ <==> (!has_crlf(s) && s.contains('\r')),
        spec_detect_line_ending(s) == "lf"@ <==> !s.contains('\r'),
{
    reveal_strlit("crlf");
    reveal_strlit("cr");
    reveal_strlit("lf");
    assert("crlf"@.len() != "cr"@.len());
    assert("crlf"@.len() != "lf"@.len());
    assert("cr"@[0] != "lf"@[0]);
    if has_crlf(s) {
        let i = choose|i: int| 0 <= i < s.len() - 1 && #[trigger] s[i] == '\r' && s[i + 1] == '\n';
        assert(s[i] == '\r');
    }
}

/// A page of a directory listing holds at most `limit` entries, exactly those from its
/// offset to its next offset; more may follow until the directory was read to its end
/// and the page reaches it; the total is known exactly when the directory was read to
/// its end.
pub proof fn lemma_listing_page_bounds(
    page: SftpLsPagedResult,
    entries: Seq<FileEntry>,
    offset: usize,
    limit: usize,
    exhausted: bool,
)
    requires
        listing_page_matches(page, entries, offset, limit, exhausted),
    ensures
        page.items@.len() <= limit,
        page.items@.len() == page.next_offset - page.offset,
        page.offset <= page.next_offset <= entries.len(),
        offset <= entries.len() ==> page.offset == offset,
        !exhausted ==> page.has_more,
        exhausted ==> (page.has_more <==> page.next_offset < entries.len()),
        page.total_known == exhausted,
        forall|i: int| 0 <= i < page.items@.len() ==> page.items@[i] == entries[page.offset + i],
{
}

/// The editor language of a remote path, by the file's name (trimmed, in ASCII lower
/// case): none for an empty name; `shell` for a name that starts with `.env`; the
/// file-name table's language for a name it lists; else the extension table's language
/// for the name's extension, and none for a name without one.
pub proof fn lemma_text_language_by_tables(path: Seq<char>)
    ensures
        ({
            let name = editor_file_name(path);
            &&& name.len() == 0 ==> spec_text_language_for_path(path) is None
            &&& (name.len() >= 4 && name.subrange(0, 4) == seq!['.', 'e', 'n', 'v'])
                ==> spec_text_language_for_path(path) == Some(seq!['s', 'h', 'e', 'l', 'l'])
            &&& (name.len() > 0 && !(name.len() >= 4 && name.subrange(0, 4) == seq!['.', 'e', 'n', 'v'])
                && table_language(editable_text_file_names(), name, 0) is Some)
                ==> spec_text_language_for_path(path) == table_language(editable_text_file_names(), name, 0)
            &&& (name.len() > 0 && !(name.len() >= 4 && name.subrange(0, 4) == seq!['.', 'e', 'n', 'v'])
                && table_language(editable_text_file_names(), name, 0) is None)
                ==> spec_text_language_for_path(path) == match path_file_name(name) {
                    Some(n) => match file_extension(n) {
                        Some(ext) => table_language(editable_text_extensions(), ext, 0),
                        None => None,
                    },
                    None => None,
                }
        }),
{
    reveal_strlit(".env");
    reveal_strlit("shell");
    assert(".env"@ =~= seq!['.', 'e', 'n', 'v']);
    assert("shell"@ =~= seq!['s', 'h', 'e', 'l', 'l']);
    let name = editor_file_name(path);
    lemma_language_for_file_name_follows_table(name);
    match path_file_name(name) {
        Some(n) => match file_extension(n) {
            Some(ext) => lemma_language_for_extension_follows_table(ext),
            None => {},
        },
        None => {},
    }
}
} // verus!

