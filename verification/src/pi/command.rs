//! The command lines with which `pi` is called.

use vstd::prelude::*;

verus! {

/// The arguments that keep a call free of everything that the caller did not give.
pub open spec fn hermetic_args() -> Seq<Seq<char>> {
    seq![
        "--print"@,
        "--mode"@,
        "json"@,
        "--no-session"@,
        "--no-context-files"@,
        "--no-skills"@,
        "--no-extensions"@,
        "--no-prompt-templates"@,
        "--no-themes"@,
    ]
}

/// The arguments of `pi` that keep a call free of everything that the caller did
/// not give: it prints events, keeps no session, and reads no context files,
/// skills, extensions, templates or themes.
pub fn build_hermetic() -> (r: Vec<String>)
    ensures
        r.deep_view() == hermetic_args(),
{
    let mut args: Vec<String> = Vec::new();
    args.push("--print".to_string());
    args.push("--mode".to_string());
    args.push("json".to_string());
    args.push("--no-session".to_string());
    args.push("--no-context-files".to_string());
    args.push("--no-skills".to_string());
    args.push("--no-extensions".to_string());
    args.push("--no-prompt-templates".to_string());
    args.push("--no-themes".to_string());
    assert(args.deep_view() =~= hermetic_args());
    args
}

/// The arguments of `pi` for what runs no model: none.
pub fn build_plain() -> (r: Vec<String>)
    ensures
        r@.len() == 0,
{
    Vec::new()
}

/// A run that is closed off prints, keeps no session, and reads nothing from around it.
pub proof fn closed_runs_read_nothing_around_them()
    ensures
        hermetic_args().contains("--print"@),
        hermetic_args().contains("--no-session"@),
        hermetic_args().contains("--no-context-files"@),
        hermetic_args().contains("--no-skills"@),
        hermetic_args().contains("--no-extensions"@),
        hermetic_args().contains("--no-prompt-templates"@),
        hermetic_args().contains("--no-themes"@),
        hermetic_args()[hermetic_args().index_of("--mode"@) + 1] == "json"@,
{
    let a = hermetic_args();
    assert(a[0] == "--print"@);
    assert(a[1] == "--mode"@);
    assert(a[3] == "--no-session"@);
    assert(a[4] == "--no-context-files"@);
    assert(a[5] == "--no-skills"@);
    assert(a[6] == "--no-extensions"@);
    assert(a[7] == "--no-prompt-templates"@);
    assert(a[8] == "--no-themes"@);
    reveal_strlit("--print");
    reveal_strlit("--mode");
    reveal_strlit("json");
    reveal_strlit("--no-session");
    reveal_strlit("--no-context-files");
    reveal_strlit("--no-skills");
    reveal_strlit("--no-extensions");
    reveal_strlit("--no-prompt-templates");
    reveal_strlit("--no-themes");
    let i = a.index_of("--mode"@);
    assert(0 <= i < a.len() && a[i] == "--mode"@);
    assert(a[i].len() == 6);
    assert(a[0].len() == 7);
    assert(a[2].len() == 4);
    assert(a[3].len() == 12);
    assert(a[4].len() == 18);
    assert(a[5].len() == 11);
    assert(a[6].len() == 15);
    assert(a[7].len() == 21);
    assert(a[8].len() == 11);
    assert(i == 1);
}

} // verus!
