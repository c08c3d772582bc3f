//! The decisions of the command line: which arguments name standard input,
//! how inline configuration is read, and the exit codes and summaries of
//! the lint, fix and format commands.

use vstd::prelude::*;
use crate::linter::Level;
use crate::text::{chars_to_string, contains_char, push_decimal, push_str, str_chars, decimal};

verus! {

/// Lint problems of level error were found.
pub const EXIT_PROBLEMS: u8 = 1;

/// Only warnings were found, in strict mode.
pub const EXIT_STRICT_WARNINGS: u8 = 2;

/// A dry run found files that would change.
pub const EXIT_DRY_RUN_CHANGES: u8 = 3;

/// Reading, decoding or writing failed.
pub const EXIT_SOFTWARE_FAILURE: u8 = 255;

/// The file arguments other than `-`.
pub open spec fn named_files(files: Seq<String>) -> Seq<Seq<char>>
    decreases files.len(),
{
    if files.len() == 0 {
        seq![]
    } else if files.last()@ == "-"@ {
        named_files(files.drop_last())
    } else {
        named_files(files.drop_last()).push(files.last()@)
    }
}

/// Split the file arguments into the paths and whether `-` (standard
/// input) is among them.
pub fn split_stdin(files: &[String]) -> (r: (Vec<String>, bool))
    ensures
        r.0@.len() == named_files(files@).len(),
        forall|i: int| 0 <= i < r.0@.len() ==> (#[trigger] r.0@[i])@ == named_files(files@)[i],
        r.1 == exists|i: int| 0 <= i < files@.len() && (#[trigger] files@[i])@ == "-"@,
{
    let mut paths: Vec<String> = Vec::new();
    let mut stdin = false;
    let mut i: usize = 0;
    while i < files.len()
        invariant
            i <= files@.len(),
            paths@.len() == named_files(files@.take(i as int)).len(),
            forall|k: int| 0 <= k < paths@.len() ==> (#[trigger] paths@[k])@ == named_files(files@.take(i as int))[k],
            stdin == exists|k: int| 0 <= k < i && (#[trigger] files@[k])@ == "-"@,
        decreases files@.len() - i,
    {
        proof {
            reveal_strlit("-");
            assert(files@.take(i + 1).drop_last() =~= files@.take(i as int));
            assert(files@.take(i + 1).last() == files@[i as int]);
        }
        if crate::text::eq_str(str_chars(files[i].as_str()).as_slice(), "-") {
            stdin = true;
        } else {
            paths.push(files[i].clone());
        }
        i = i + 1;
    }
    proof {
        assert(files@.take(files@.len() as int) =~= files@);
    }
    (paths, stdin)
}

/// The configuration text given inline: a bare preset name such as
/// `relaxed` stands for `extends: relaxed`.
pub open spec fn config_data_spec(data: Seq<char>) -> Seq<char> {
    if data.len() > 0 && !data.contains(':') {
        "extends: "@ + data
    } else {
        data
    }
}

pub fn config_data_source(data: &str) -> (r: String)
    ensures
        r@ == config_data_spec(data@),
{
    let v = str_chars(data);
    if v.len() > 0 && !contains_char(v.as_slice(), ':') {
        let mut out = str_chars("extends: ");
        push_str(&mut out, data);
        chars_to_string(out.as_slice())
    } else {
        data.to_owned()
    }
}

/// The exit code of a lint run: problems of level error fail it; warnings
/// fail it only in strict mode.
pub open spec fn lint_exit_spec(levels: Seq<Level>, strict: bool) -> u8 {
    if levels.contains(Level::Error) {
        EXIT_PROBLEMS
    } else if levels.contains(Level::Warning) && strict {
        EXIT_STRICT_WARNINGS
    } else {
        0
    }
}

pub fn lint_exit_code(levels: &[Level], strict: bool) -> (r: u8)
    ensures
        r == lint_exit_spec(levels@, strict),
{
    let mut has_error = false;
    let mut has_warning = false;
    let mut i: usize = 0;
    while i < levels.len()
        invariant
            i <= levels@.len(),
            has_error == exists|k: int| 0 <= k < i && levels@[k] == Level::Error,
            has_warning == exists|k: int| 0 <= k < i && levels@[k] == Level::Warning,
        decreases levels@.len() - i,
    {
        match levels[i] {
            Level::Error => {
                has_error = true;
            },
            Level::Warning => {
                has_warning = true;
            },
        }
        i = i + 1;
    }
    if has_error {
        EXIT_PROBLEMS
    } else if has_warning && strict {
        EXIT_STRICT_WARNINGS
    } else {
        0
    }
}

/// `"N file"` or `"N files"`.
pub open spec fn files_count(n: nat) -> Seq<char> {
    decimal(n) + (if n == 1 {
        " file"@
    } else {
        " files"@
    })
}

/// What a fix or format run reports at its end, and its exit code: a dry
/// run that found changes names how many files would change; a real run
/// names how many changed, or that there was nothing to do.
pub open spec fn fix_summary_spec(changed: nat, dry_run: bool, verb: Seq<char>) -> (Option<Seq<char>>, u8) {
    if dry_run {
        if changed > 0 {
            (Some(files_count(changed) + " would be "@ + verb), EXIT_DRY_RUN_CHANGES)
        } else {
            (None, 0)
        }
    } else if changed > 0 {
        (Some(files_count(changed) + " "@ + verb), 0)
    } else {
        (Some("nothing to do"@), 0)
    }
}

pub fn fix_summary(changed: usize, dry_run: bool, verb: &str) -> (r: (Option<String>, u8))
    ensures
        r.1 == fix_summary_spec(changed as nat, dry_run, verb@).1,
        match (r.0, fix_summary_spec(changed as nat, dry_run, verb@).0) {
            (Some(a), Some(b)) => a@ == b,
            (None, None) => true,
            _ => false,
        },
{
    if dry_run && changed == 0 {
        return (None, 0);
    }
    if !dry_run && changed == 0 {
        return (Some("nothing to do".to_owned()), 0);
    }
    let mut out: Vec<char> = Vec::new();
    push_decimal(&mut out, changed);
    if changed == 1 {
        push_str(&mut out, " file");
    } else {
        push_str(&mut out, " files");
    }
    if dry_run {
        push_str(&mut out, " would be ");
        push_str(&mut out, verb);
        (Some(chars_to_string(out.as_slice())), EXIT_DRY_RUN_CHANGES)
    } else {
        push_str(&mut out, " ");
        push_str(&mut out, verb);
        (Some(chars_to_string(out.as_slice())), 0)
    }
}

} // verus!
