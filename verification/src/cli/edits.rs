//! The macrophage's view of an edited file: what kind of file it is by
//! extension, and which audit command records the edit.

use vstd::prelude::*;
use crate::text::{chars_of, eq_str, rfind_char, rfind_char_exec, string_of, tail};

verus! {

/// What `str::to_lowercase` gives for a text (full Unicode mapping).
pub uninterp spec fn lowercase(s: Seq<char>) -> Seq<char>;

/// Calls std's `str::to_lowercase`; the result is named by `lowercase`, a
/// function of the text alone (Unicode tables).
#[verifier::external_body]
pub(crate) fn to_lowercase(s: &str) -> (r: String)
    ensures
        r@ == lowercase(s@),
{
    s.to_lowercase()
}

/// The kinds of edited file.
#[derive(Debug, Clone, Copy, PartialEq, Eq, Structural)]
pub enum FileKind {
    /// Bluebook-family sources: `.bluebook`, `.hecksagon`, `.fixtures`,
    /// `.behaviors`, `.world`.
    Bluebook,
    /// Imperative code.
    Imperative,
    /// Documentation and data.
    Support,
    Other,
}

/// The text after the last `.`, or the whole path.
pub open spec fn extension(path: Seq<char>) -> Seq<char> {
    match rfind_char(path, '.') {
        Some(i) => path.subrange(i + 1, path.len() as int),
        None => path,
    }
}

/// The kind of a (lowercased) extension.
pub open spec fn kind_of_ext(e: Seq<char>) -> FileKind {
    if e == "bluebook"@ || e == "hecksagon"@ || e == "fixtures"@ || e == "behaviors"@ || e == "world"@ {
        FileKind::Bluebook
    } else if e == "rs"@ || e == "sh"@ || e == "rb"@ || e == "js"@ || e == "jsx"@ || e == "ts"@ || e == "tsx"@
        || e == "py"@ || e == "go"@ || e == "c"@ || e == "cpp"@ || e == "h"@ || e == "hpp"@ || e == "java"@
        || e == "swift"@ {
        FileKind::Imperative
    } else if e == "md"@ || e == "heki"@ || e == "json"@ || e == "toml"@ || e == "yaml"@ || e == "yml"@
        || e == "txt"@ {
        FileKind::Support
    } else {
        FileKind::Other
    }
}

fn in_list(e: &Vec<char>, list: &[&str]) -> (r: bool)
    ensures
        r == exists|i: int| 0 <= i < list@.len() && list@[i]@ == e@,
{
    let mut i: usize = 0;
    while i < list.len()
        invariant
            i <= list.len(),
            forall|k: int| 0 <= k < i ==> list@[k]@ != e@,
        decreases list.len() - i,
    {
        if eq_str(e, list[i]) {
            return true;
        }
        i = i + 1;
    }
    false
}

/// Classifies an edited path by its lowercased extension.
pub fn classify_file(path: &str) -> (r: FileKind)
    ensures
        r == kind_of_ext(lowercase(extension(path@))),
{
    let p = chars_of(path);
    let ext = match rfind_char_exec(&p, '.') {
        Some(i) => tail(&p, i + 1),
        None => p.clone(),
    };
    let low = chars_of(to_lowercase(string_of(&ext).as_str()).as_str());
    let bluebook: [&str; 5] = ["bluebook", "hecksagon", "fixtures", "behaviors", "world"];
    let imperative: [&str; 15] = ["rs", "sh", "rb", "js", "jsx", "ts", "tsx", "py", "go", "c", "cpp", "h", "hpp", "java", "swift"];
    let support: [&str; 7] = ["md", "heki", "json", "toml", "yaml", "yml", "txt"];
    let ghost e = low@;
    if in_list(&low, &bluebook) {
        assert(kind_of_ext(e) == FileKind::Bluebook) by {
            let i = choose|i: int| 0 <= i < 5 && bluebook@[i]@ == e;
        }
        FileKind::Bluebook
    } else if in_list(&low, &imperative) {
        assert(!(e == "bluebook"@ || e == "hecksagon"@ || e == "fixtures"@ || e == "behaviors"@ || e == "world"@)) by {
            assert(bluebook@[0]@ == "bluebook"@ && bluebook@[1]@ == "hecksagon"@ && bluebook@[2]@ == "fixtures"@);
            assert(bluebook@[3]@ == "behaviors"@ && bluebook@[4]@ == "world"@);
        }
        assert(kind_of_ext(e) == FileKind::Imperative) by {
            let i = choose|i: int| 0 <= i < 15 && imperative@[i]@ == e;
        }
        FileKind::Imperative
    } else if in_list(&low, &support) {
        assert(!(e == "bluebook"@ || e == "hecksagon"@ || e == "fixtures"@ || e == "behaviors"@ || e == "world"@)) by {
            assert(bluebook@[0]@ == "bluebook"@ && bluebook@[1]@ == "hecksagon"@ && bluebook@[2]@ == "fixtures"@);
            assert(bluebook@[3]@ == "behaviors"@ && bluebook@[4]@ == "world"@);
        }
        assert(kind_of_ext(e) == FileKind::Support) by {
            assert(imperative@[0]@ == "rs"@ && imperative@[1]@ == "sh"@ && imperative@[2]@ == "rb"@);
            assert(imperative@[3]@ == "js"@ && imperative@[4]@ == "jsx"@ && imperative@[5]@ == "ts"@);
            assert(imperative@[6]@ == "tsx"@ && imperative@[7]@ == "py"@ && imperative@[8]@ == "go"@);
            assert(imperative@[9]@ == "c"@ && imperative@[10]@ == "cpp"@ && imperative@[11]@ == "h"@);
            assert(imperative@[12]@ == "hpp"@ && imperative@[13]@ == "java"@ && imperative@[14]@ == "swift"@);
            let i = choose|i: int| 0 <= i < 7 && support@[i]@ == e;
        }
        FileKind::Support
    } else {
        assert(kind_of_ext(e) == FileKind::Other) by {
            assert(bluebook@[0]@ == "bluebook"@ && bluebook@[1]@ == "hecksagon"@ && bluebook@[2]@ == "fixtures"@);
            assert(bluebook@[3]@ == "behaviors"@ && bluebook@[4]@ == "world"@);
            assert(imperative@[0]@ == "rs"@ && imperative@[1]@ == "sh"@ && imperative@[2]@ == "rb"@);
            assert(imperative@[3]@ == "js"@ && imperative@[4]@ == "jsx"@ && imperative@[5]@ == "ts"@);
            assert(imperative@[6]@ == "tsx"@ && imperative@[7]@ == "py"@ && imperative@[8]@ == "go"@);
            assert(imperative@[9]@ == "c"@ && imperative@[10]@ == "cpp"@ && imperative@[11]@ == "h"@);
            assert(imperative@[12]@ == "hpp"@ && imperative@[13]@ == "java"@ && imperative@[14]@ == "swift"@);
            assert(support@[0]@ == "md"@ && support@[1]@ == "heki"@ && support@[2]@ == "json"@);
            assert(support@[3]@ == "toml"@ && support@[4]@ == "yaml"@ && support@[5]@ == "yml"@ && support@[6]@ == "txt"@);
        }
        FileKind::Other
    }
}

/// The audit command recording an edit of a file of `kind`; an
/// imperative file the corpus exempts records an exempted edit.
pub fn edit_command(kind: FileKind, exempted: bool) -> (r: &'static str)
    ensures
        r@ == (match kind {
            FileKind::Bluebook => "RecordBluebookEdit"@,
            FileKind::Imperative => if exempted { "RecordExemptedEdit"@ } else { "RecordImperativeEdit"@ },
            FileKind::Support => "RecordSupportEdit"@,
            FileKind::Other => "RecordOtherEdit"@,
        }),
{
    match kind {
        FileKind::Bluebook => "RecordBluebookEdit",
        FileKind::Imperative => if exempted { "RecordExemptedEdit" } else { "RecordImperativeEdit" },
        FileKind::Support => "RecordSupportEdit",
        FileKind::Other => "RecordOtherEdit",
    }
}

} // verus!
