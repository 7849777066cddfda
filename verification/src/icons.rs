//! The icon shown beside a file or a directory.

use crate::paths::{extension, extension_of};
use crate::text::{chars_of, lowercase_chars, lowercase_of, spells, str_equal, string_of};
use vstd::prelude::*;
use vstd::string::*;

verus! {

/// The icon of a file without a better one.
pub open spec fn default_icon() -> char {
    '\u{f15b}'
}

/// The icon of a file known by its whole name, if it is one.
pub open spec fn special_icon(name: Seq<char>) -> Option<char> {
    if name == "Cargo.toml"@ || name == "Cargo.lock"@ {
        Some('\u{e7a8}')
    } else if name == ".gitignore"@ || name == ".gitmodules"@ || name == ".gitattributes"@ {
        Some('\u{f1d3}')
    } else if name == "Makefile"@ || name == "makefile"@ || name == "CMakeLists.txt"@ {
        Some('\u{e779}')
    } else if name == ".editorconfig"@ {
        Some('\u{e615}')
    } else if name == "README"@ || name == "README.md"@ {
        Some('\u{f48a}')
    } else if name == "LICENSE"@ || name == "CHANGELOG"@ {
        Some('\u{f15c}')
    } else if name == "CHANGELOG.md"@ {
        Some('\u{f48a}')
    } else {
        None
    }
}

/// The icon of a file with the given extension, in lower case.
pub open spec fn extension_icon(ext: Seq<char>) -> char {
    if ext == "rs"@ {
        '\u{e7a8}'
    } else if ext == "py"@ || ext == "pyc"@ || ext == "pyo"@ || ext == "pyw"@ {
        '\u{e73c}'
    } else if ext == "js"@ || ext == "jsx"@ || ext == "mjs"@ {
        '\u{e74e}'
    } else if ext == "ts"@ || ext == "tsx"@ {
        '\u{e628}'
    } else if ext == "go"@ {
        '\u{e724}'
    } else if ext == "java"@ || ext == "class"@ || ext == "jar"@ {
        '\u{e738}'
    } else if ext == "c"@ || ext == "h"@ {
        '\u{e61e}'
    } else if ext == "cpp"@ || ext == "cxx"@ || ext == "cc"@ || ext == "hpp"@ || ext == "hxx"@ {
        '\u{e61d}'
    } else if ext == "rb"@ {
        '\u{e739}'
    } else if ext == "json"@ {
        '\u{e60b}'
    } else if ext == "yaml"@ || ext == "yml"@ {
        '\u{f481}'
    } else if ext == "toml"@ || ext == "ini"@ || ext == "conf"@ || ext == "cfg"@ {
        '\u{e615}'
    } else if ext == "md"@ || ext == "markdown"@ {
        '\u{f48a}'
    } else if ext == "txt"@ || ext == "text"@ {
        '\u{f15c}'
    } else if ext == "html"@ || ext == "htm"@ {
        '\u{e736}'
    } else if ext == "css"@ || ext == "scss"@ || ext == "sass"@ {
        '\u{e749}'
    } else {
        default_icon()
    }
}

/// The icon of a file: that of its whole name where it has one, else that
/// of its extension without regard to case, else the default.
pub open spec fn file_icon(name: Seq<char>) -> char {
    match special_icon(name) {
        Some(icon) => icon,
        None => match extension(name) {
            Some(ext) => extension_icon(lowercase_of(ext)),
            None => default_icon(),
        },
    }
}

/// The icon of a directory: an open folder where it is expanded, else a
/// closed one.
pub open spec fn directory_icon(expanded: bool) -> char {
    if expanded {
        '\u{f115}'
    } else {
        '\u{f114}'
    }
}

/// The icon of a file known by its whole name, if it is one.
pub fn special_icon_of(name: &str) -> (r: Option<char>)
    ensures
        r == special_icon(name@),
{
    if str_equal(name, "Cargo.toml") || str_equal(name, "Cargo.lock") {
        Some('\u{e7a8}')
    } else if str_equal(name, ".gitignore") || str_equal(name, ".gitmodules") || str_equal(
        name,
        ".gitattributes",
    ) {
        Some('\u{f1d3}')
    } else if str_equal(name, "Makefile") || str_equal(name, "makefile") || str_equal(
        name,
        "CMakeLists.txt",
    ) {
        Some('\u{e779}')
    } else if str_equal(name, ".editorconfig") {
        Some('\u{e615}')
    } else if str_equal(name, "README") || str_equal(name, "README.md") {
        Some('\u{f48a}')
    } else if str_equal(name, "LICENSE") || str_equal(name, "CHANGELOG") {
        Some('\u{f15c}')
    } else if str_equal(name, "CHANGELOG.md") {
        Some('\u{f48a}')
    } else {
        None
    }
}

/// The icon of a file with the given extension, in lower case.
pub fn extension_icon_of(ext: &[char]) -> (icon: char)
    ensures
        icon == extension_icon(ext@),
{
    if spells(ext, "rs") {
        '\u{e7a8}'
    } else if spells(ext, "py") || spells(ext, "pyc") || spells(ext, "pyo") || spells(ext, "pyw") {
        '\u{e73c}'
    } else if spells(ext, "js") || spells(ext, "jsx") || spells(ext, "mjs") {
        '\u{e74e}'
    } else if spells(ext, "ts") || spells(ext, "tsx") {
        '\u{e628}'
    } else if spells(ext, "go") {
        '\u{e724}'
    } else if spells(ext, "java") || spells(ext, "class") || spells(ext, "jar") {
        '\u{e738}'
    } else if spells(ext, "c") || spells(ext, "h") {
        '\u{e61e}'
    } else if spells(ext, "cpp") || spells(ext, "cxx") || spells(ext, "cc") || spells(ext, "hpp")
        || spells(ext, "hxx") {
        '\u{e61d}'
    } else if spells(ext, "rb") {
        '\u{e739}'
    } else if spells(ext, "json") {
        '\u{e60b}'
    } else if spells(ext, "yaml") || spells(ext, "yml") {
        '\u{f481}'
    } else if spells(ext, "toml") || spells(ext, "ini") || spells(ext, "conf") || spells(
        ext,
        "cfg",
    ) {
        '\u{e615}'
    } else if spells(ext, "md") || spells(ext, "markdown") {
        '\u{f48a}'
    } else if spells(ext, "txt") || spells(ext, "text") {
        '\u{f15c}'
    } else if spells(ext, "html") || spells(ext, "htm") {
        '\u{e736}'
    } else if spells(ext, "css") || spells(ext, "scss") || spells(ext, "sass") {
        '\u{e749}'
    } else {
        '\u{f15b}'
    }
}

/// The icon for a file, by its name and extension.
pub fn get_file_icon(filename: &str) -> (icon: char)
    ensures
        icon == file_icon(filename@),
{
    match special_icon_of(filename) {
        Some(icon) => icon,
        None => {
            let chars = chars_of(filename);
            match extension_of(chars.as_slice()) {
                Some(ext) => {
                    let ext_text = string_of(ext.as_slice());
                    let lower = lowercase_chars(ext_text.as_str());
                    extension_icon_of(lower.as_slice())
                },
                None => '\u{f15b}',
            }
        },
    }
}

/// The icon for a directory.
pub fn get_directory_icon(expanded: bool) -> (icon: char)
    ensures
        icon == directory_icon(expanded),
{
    if expanded {
        '\u{f115}'
    } else {
        '\u{f114}'
    }
}

} // verus!
