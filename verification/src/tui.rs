//! The terminal interface: how a command line is read into a command, and
//! the lines the listing commands print.
use vstd::prelude::*;

use crate::model::{PresetGroup, PresetGroupView, PresetLibrary, PresetLibraryView};
use crate::text::{extend_str, str_eq, string_of};

verus! {

/// What `autorun` should do.
#[derive(Debug, Clone, Copy, PartialEq, Eq, Structural)]
pub enum AutorunAction {
    Status,
    Enable,
    Disable,
}

/// A command of the terminal interface, with its arguments.
#[derive(Debug, Clone)]
pub enum TuiCommand {
    /// Nothing was typed: keep going.
    Continue,
    Help,
    Quit,
    List,
    Groups,
    Presets(String),
    Apply { group: String, preset: String },
    CreateGroup(String),
    CreatePreset { group: String, name: String },
    Import { group: String, files: Vec<String> },
    Config(String),
    Autorun(AutorunAction),
    UnknownAutorunAction(String),
    Disable,
    LinuxStatus,
    /// A command given too few arguments: the usage line to print.
    Usage(String),
    /// A word that names no command.
    Unknown(String),
}

/// The view of a terminal command.
pub ghost enum TuiCommandView {
    Continue,
    Help,
    Quit,
    List,
    Groups,
    Presets(Seq<char>),
    Apply(Seq<char>, Seq<char>),
    CreateGroup(Seq<char>),
    CreatePreset(Seq<char>, Seq<char>),
    Import(Seq<char>, Seq<Seq<char>>),
    Config(Seq<char>),
    Autorun(AutorunAction),
    UnknownAutorunAction(Seq<char>),
    Disable,
    LinuxStatus,
    Usage(Seq<char>),
    Unknown(Seq<char>),
}

impl View for TuiCommand {
    type V = TuiCommandView;

    open spec fn view(&self) -> TuiCommandView {
        match self {
            TuiCommand::Continue => TuiCommandView::Continue,
            TuiCommand::Help => TuiCommandView::Help,
            TuiCommand::Quit => TuiCommandView::Quit,
            TuiCommand::List => TuiCommandView::List,
            TuiCommand::Groups => TuiCommandView::Groups,
            TuiCommand::Presets(g) => TuiCommandView::Presets(g@),
            TuiCommand::Apply { group, preset } => TuiCommandView::Apply(group@, preset@),
            TuiCommand::CreateGroup(n) => TuiCommandView::CreateGroup(n@),
            TuiCommand::CreatePreset { group, name } => TuiCommandView::CreatePreset(group@, name@),
            TuiCommand::Import { group, files } => TuiCommandView::Import(
                group@,
                files@.map_values(|f: String| f@),
            ),
            TuiCommand::Config(p) => TuiCommandView::Config(p@),
            TuiCommand::Autorun(a) => TuiCommandView::Autorun(*a),
            TuiCommand::UnknownAutorunAction(a) => TuiCommandView::UnknownAutorunAction(a@),
            TuiCommand::Disable => TuiCommandView::Disable,
            TuiCommand::LinuxStatus => TuiCommandView::LinuxStatus,
            TuiCommand::Usage(u) => TuiCommandView::Usage(u@),
            TuiCommand::Unknown(w) => TuiCommandView::Unknown(w@),
        }
    }
}

/// The command a line of words asks for.
pub open spec fn tui_command(args: Seq<Seq<char>>) -> TuiCommandView {
    if args.len() == 0 {
        TuiCommandView::Continue
    } else {
        let cmd = args[0];
        if cmd == "help"@ || cmd == "?"@ {
            TuiCommandView::Help
        } else if cmd == "quit"@ || cmd == "exit"@ {
            TuiCommandView::Quit
        } else if cmd == "list"@ || cmd == "ls"@ {
            TuiCommandView::List
        } else if cmd == "groups"@ {
            TuiCommandView::Groups
        } else if cmd == "presets"@ {
            if args.len() < 2 {
                TuiCommandView::Usage("Usage: presets <group>"@)
            } else {
                TuiCommandView::Presets(args[1])
            }
        } else if cmd == "apply"@ {
            if args.len() < 3 {
                TuiCommandView::Usage("Usage: apply <group> <preset>"@)
            } else {
                TuiCommandView::Apply(args[1], args[2])
            }
        } else if cmd == "create-group"@ {
            if args.len() < 2 {
                TuiCommandView::Usage("Usage: create-group <name>"@)
            } else {
                TuiCommandView::CreateGroup(args[1])
            }
        } else if cmd == "create-preset"@ {
            if args.len() < 3 {
                TuiCommandView::Usage("Usage: create-preset <group> <name>"@)
            } else {
                TuiCommandView::CreatePreset(args[1], args[2])
            }
        } else if cmd == "import"@ {
            if args.len() < 3 {
                TuiCommandView::Usage("Usage: import <group> <file> [files...]"@)
            } else {
                TuiCommandView::Import(args[1], args.skip(2))
            }
        } else if cmd == "config"@ {
            if args.len() < 2 {
                TuiCommandView::Usage("Usage: config <path>"@)
            } else {
                TuiCommandView::Config(args[1])
            }
        } else if cmd == "autorun"@ {
            if args.len() < 2 {
                TuiCommandView::Usage("Usage: autorun <status|enable|disable>"@)
            } else if args[1] == "status"@ {
                TuiCommandView::Autorun(AutorunAction::Status)
            } else if args[1] == "enable"@ {
                TuiCommandView::Autorun(AutorunAction::Enable)
            } else if args[1] == "disable"@ {
                TuiCommandView::Autorun(AutorunAction::Disable)
            } else {
                TuiCommandView::UnknownAutorunAction(args[1])
            }
        } else if cmd == "disable"@ {
            TuiCommandView::Disable
        } else if cmd == "linux-status"@ || cmd == "status"@ {
            TuiCommandView::LinuxStatus
        } else {
            TuiCommandView::Unknown(cmd)
        }
    }
}

/// The views of a list of words.
pub open spec fn words_view(args: Seq<String>) -> Seq<Seq<char>> {
    args.map_values(|a: String| a@)
}

/// Reads a line of words (the command, then its arguments) into a command.
pub fn parse_tui_command(args: &Vec<String>) -> (r: TuiCommand)
    ensures
        r@ == tui_command(words_view(args@)),
{
    let ghost av = words_view(args@);
    if args.len() == 0 {
        return TuiCommand::Continue;
    }
    let cmd = args[0].as_str();
    assert(av[0] == cmd@);
    let n = args.len();
    if n >= 2 {
        assert(av[1] == args@[1]@);
    }
    if n >= 3 {
        assert(av[2] == args@[2]@);
    }
    if str_eq(cmd, "help") || str_eq(cmd, "?") {
        TuiCommand::Help
    } else if str_eq(cmd, "quit") || str_eq(cmd, "exit") {
        TuiCommand::Quit
    } else if str_eq(cmd, "list") || str_eq(cmd, "ls") {
        TuiCommand::List
    } else if str_eq(cmd, "groups") {
        TuiCommand::Groups
    } else if str_eq(cmd, "presets") {
        if n < 2 {
            TuiCommand::Usage("Usage: presets <group>".to_owned())
        } else {
            TuiCommand::Presets(args[1].clone())
        }
    } else if str_eq(cmd, "apply") {
        if n < 3 {
            TuiCommand::Usage("Usage: apply <group> <preset>".to_owned())
        } else {
            TuiCommand::Apply { group: args[1].clone(), preset: args[2].clone() }
        }
    } else if str_eq(cmd, "create-group") {
        if n < 2 {
            TuiCommand::Usage("Usage: create-group <name>".to_owned())
        } else {
            TuiCommand::CreateGroup(args[1].clone())
        }
    } else if str_eq(cmd, "create-preset") {
        if n < 3 {
            TuiCommand::Usage("Usage: create-preset <group> <name>".to_owned())
        } else {
            TuiCommand::CreatePreset { group: args[1].clone(), name: args[2].clone() }
        }
    } else if str_eq(cmd, "import") {
        if n < 3 {
            TuiCommand::Usage("Usage: import <group> <file> [files...]".to_owned())
        } else {
            let mut files: Vec<String> = Vec::new();
            let mut k: usize = 2;
            while k < n
                invariant
                    2 <= k <= n,
                    n == args@.len(),
                    av == words_view(args@),
                    words_view(files@) == av.subrange(2, k as int),
                decreases n - k,
            {
                let f = args[k].clone();
                assert(f@ == av[k as int]);
                let ghost before = words_view(files@);
                files.push(f);
                assert(words_view(files@) =~= before.push(f@));
                assert(av.subrange(2, k + 1) =~= av.subrange(2, k as int).push(av[k as int]));
                k = k + 1;
            }
            assert(av.subrange(2, n as int) =~= av.skip(2));
            TuiCommand::Import { group: args[1].clone(), files }
        }
    } else if str_eq(cmd, "config") {
        if n < 2 {
            TuiCommand::Usage("Usage: config <path>".to_owned())
        } else {
            TuiCommand::Config(args[1].clone())
        }
    } else if str_eq(cmd, "autorun") {
        if n < 2 {
            TuiCommand::Usage("Usage: autorun <status|enable|disable>".to_owned())
        } else {
            let action = args[1].as_str();
            if str_eq(action, "status") {
                TuiCommand::Autorun(AutorunAction::Status)
            } else if str_eq(action, "enable") {
                TuiCommand::Autorun(AutorunAction::Enable)
            } else if str_eq(action, "disable") {
                TuiCommand::Autorun(AutorunAction::Disable)
            } else {
                TuiCommand::UnknownAutorunAction(args[1].clone())
            }
        }
    } else if str_eq(cmd, "disable") {
        TuiCommand::Disable
    } else if str_eq(cmd, "linux-status") || str_eq(cmd, "status") {
        TuiCommand::LinuxStatus
    } else {
        TuiCommand::Unknown(args[0].clone())
    }
}

/// Whether the command ends the interactive session.
pub open spec fn ends_session(c: TuiCommandView) -> bool {
    c is Quit
}

/// The mark before a preset in the listing: `*` for the group's active one.
pub open spec fn preset_marker(g: PresetGroupView, name: Seq<char>) -> Seq<char> {
    if g.active_preset == Some(name) {
        "*"@
    } else {
        " "@
    }
}

/// The lines that list one group: its name with its active preset, then one
/// line per preset.
pub open spec fn group_listing(g: PresetGroupView) -> Seq<Seq<char>> {
    seq![
        g.name + " (active: "@ + (match g.active_preset {
            Some(a) => a,
            None => "(none)"@,
        }) + ")"@,
    ] + g.presets.map_values(
        |p: crate::model::PresetItemView| "  "@ + preset_marker(g, p.name) + " "@ + p.name,
    )
}

/// The lines that list the groups `gs`, one after the other.
pub open spec fn groups_listing(gs: Seq<PresetGroupView>) -> Seq<Seq<char>>
    decreases gs.len(),
{
    if gs.len() == 0 {
        Seq::empty()
    } else {
        groups_listing(gs.drop_last()) + group_listing(gs.last())
    }
}

/// The lines `list` prints.
pub open spec fn library_listing(lib: PresetLibraryView, eq_disabled: bool) -> Seq<Seq<char>> {
    if lib.groups.len() == 0 {
        seq!["No preset groups found."@]
    } else {
        (if eq_disabled {
            seq!["  (EQ bypassed)"@]
        } else {
            Seq::empty()
        }) + groups_listing(lib.groups)
    }
}

/// The lines that list one group.
fn group_listing_lines(out: &mut Vec<String>, g: &PresetGroup)
    ensures
        final(out)@.map_values(|l: String| l@) == old(out)@.map_values(|l: String| l@) + group_listing(g@),
{
    let ghost start = out@.map_values(|l: String| l@);
    let mut v: Vec<char> = Vec::new();
    extend_str(&mut v, g.name.as_str());
    extend_str(&mut v, " (active: ");
    match &g.active_preset {
        Some(a) => extend_str(&mut v, a.as_str()),
        None => extend_str(&mut v, "(none)"),
    }
    extend_str(&mut v, ")");
    out.push(string_of(&v));
    let ghost rows = g@.presets.map_values(
        |p: crate::model::PresetItemView| "  "@ + preset_marker(g@, p.name) + " "@ + p.name,
    );
    assert(out@.map_values(|l: String| l@) =~= start + seq![v@]);
    let mut j: usize = 0;
    while j < g.presets.len()
        invariant
            j <= g.presets@.len(),
            rows == g@.presets.map_values(
                |p: crate::model::PresetItemView| "  "@ + preset_marker(g@, p.name) + " "@ + p.name,
            ),
            out@.map_values(|l: String| l@) == start + seq![v@] + rows.take(j as int),
        decreases g.presets.len() - j,
    {
        let p = &g.presets[j];
        assert(g@.presets[j as int] == p@);
        let active = match &g.active_preset {
            Some(a) => str_eq(a.as_str(), p.name.as_str()),
            None => false,
        };
        let mut line: Vec<char> = Vec::new();
        extend_str(&mut line, "  ");
        if active {
            extend_str(&mut line, "*");
        } else {
            extend_str(&mut line, " ");
        }
        extend_str(&mut line, " ");
        extend_str(&mut line, p.name.as_str());
        assert(line@ == rows[j as int]);
        let ghost before = out@.map_values(|l: String| l@);
        out.push(string_of(&line));
        assert(out@.map_values(|l: String| l@) =~= before.push(line@));
        assert(rows.take(j + 1) =~= rows.take(j as int).push(rows[j as int]));
        j = j + 1;
    }
    assert(rows.take(j as int) =~= rows);
    assert(seq![v@] + rows =~= group_listing(g@));
    assert(start + seq![v@] + rows =~= start + (seq![v@] + rows));
}

/// The lines the `list` command prints: each group with its active preset
/// and its presets (the active one marked `*`), after a note when the EQ is
/// bypassed; or a note that there are no groups.
pub fn list_lines(snapshot: &PresetLibrary, eq_disabled: bool) -> (r: Vec<String>)
    ensures
        r@.map_values(|l: String| l@) == library_listing(snapshot@, eq_disabled),
{
    let mut out: Vec<String> = Vec::new();
    if snapshot.groups.len() == 0 {
        out.push("No preset groups found.".to_owned());
        assert(out@.map_values(|l: String| l@) =~= seq!["No preset groups found."@]);
        return out;
    }
    if eq_disabled {
        out.push("  (EQ bypassed)".to_owned());
    }
    let ghost head = out@.map_values(|l: String| l@);
    assert(head =~= (if eq_disabled {
        seq!["  (EQ bypassed)"@]
    } else {
        Seq::empty()
    }));
    let ghost gv = snapshot@.groups;
    let mut i: usize = 0;
    assert(gv.take(0) =~= Seq::<PresetGroupView>::empty());
    assert(head + groups_listing(gv.take(0)) =~= head);
    while i < snapshot.groups.len()
        invariant
            i <= snapshot.groups@.len(),
            gv == snapshot@.groups,
            out@.map_values(|l: String| l@) == head + groups_listing(gv.take(i as int)),
        decreases snapshot.groups.len() - i,
    {
        assert(gv.take(i + 1).drop_last() =~= gv.take(i as int));
        assert(gv.take(i + 1).last() == snapshot.groups@[i as int]@);
        group_listing_lines(&mut out, &snapshot.groups[i]);
        i = i + 1;
        assert(head + groups_listing(gv.take(i as int)) =~= head + groups_listing(
            gv.take(i - 1),
        ) + group_listing(gv[i - 1]));
    }
    assert(gv.take(i as int) =~= gv);
    out
}

/// The lines the `groups` command prints: the group names.
pub fn group_lines(snapshot: &PresetLibrary) -> (r: Vec<String>)
    ensures
        r@.map_values(|l: String| l@) == snapshot@.groups.map_values(|g: PresetGroupView| g.name),
{
    let mut out: Vec<String> = Vec::new();
    let mut i: usize = 0;
    while i < snapshot.groups.len()
        invariant
            i <= snapshot.groups@.len(),
            out@.map_values(|l: String| l@) == snapshot@.groups.take(i as int).map_values(
                |g: PresetGroupView| g.name,
            ),
        decreases snapshot.groups.len() - i,
    {
        let name = snapshot.groups[i].name.clone();
        assert(name@ == snapshot@.groups[i as int].name);
        let ghost before = out@.map_values(|l: String| l@);
        out.push(name);
        assert(out@.map_values(|l: String| l@) =~= before.push(name@));
        assert(snapshot@.groups.take(i + 1).map_values(|g: PresetGroupView| g.name)
            =~= snapshot@.groups.take(i as int).map_values(|g: PresetGroupView| g.name).push(name@));
        i = i + 1;
    }
    assert(snapshot@.groups.take(i as int) =~= snapshot@.groups);
    out
}

/// The lines the `presets <group>` command prints: the presets of the first
/// group with that name, or a note that there is none.
pub open spec fn presets_listing(lib: PresetLibraryView, group: Seq<char>) -> Seq<Seq<char>> {
    let k = crate::library::first_where(lib.groups, |g: PresetGroupView| g.name == group);
    if k < lib.groups.len() {
        lib.groups[k as int].presets.map_values(|p: crate::model::PresetItemView| p.name)
    } else {
        seq!["Group not found: "@ + group]
    }
}

/// The lines the `presets <group>` command prints.
pub fn preset_lines(snapshot: &PresetLibrary, group: &str) -> (r: Vec<String>)
    ensures
        r@.map_values(|l: String| l@) == presets_listing(snapshot@, group@),
{
    let ghost gv = snapshot@.groups;
    let ghost p = |g: PresetGroupView| g.name == group@;
    proof {
        crate::library::lemma_first_where(gv, p);
    }
    let mut i: usize = 0;
    while i < snapshot.groups.len()
        invariant
            i <= snapshot.groups@.len() == gv.len(),
            gv == snapshot@.groups,
            p == (|g: PresetGroupView| g.name == group@),
            crate::library::first_where(gv, p) <= gv.len(),
            crate::library::first_where(gv, p) < gv.len() ==> p(
                gv[crate::library::first_where(gv, p) as int],
            ),
            forall|q: int| 0 <= q < crate::library::first_where(gv, p) ==> !p(#[trigger] gv[q]),
            forall|q: int| 0 <= q < i ==> !p(#[trigger] gv[q]),
        decreases snapshot.groups.len() - i,
    {
        assert(gv[i as int] == snapshot.groups@[i as int]@);
        if str_eq(snapshot.groups[i].name.as_str(), group) {
            assert(crate::library::first_where(gv, p) == i);
            let g = &snapshot.groups[i];
            let mut out: Vec<String> = Vec::new();
            let mut j: usize = 0;
            while j < g.presets.len()
                invariant
                    j <= g.presets@.len(),
                    out@.map_values(|l: String| l@) == g@.presets.take(j as int).map_values(
                        |q: crate::model::PresetItemView| q.name,
                    ),
                decreases g.presets.len() - j,
            {
                let name = g.presets[j].name.clone();
                assert(name@ == g@.presets[j as int].name);
                let ghost before = out@.map_values(|l: String| l@);
                out.push(name);
                assert(out@.map_values(|l: String| l@) =~= before.push(name@));
                assert(g@.presets.take(j + 1).map_values(|q: crate::model::PresetItemView| q.name)
                    =~= g@.presets.take(j as int).map_values(
                    |q: crate::model::PresetItemView| q.name,
                ).push(name@));
                j = j + 1;
            }
            assert(g@.presets.take(j as int) =~= g@.presets);
            return out;
        }
        i = i + 1;
    }
    let mut v: Vec<char> = Vec::new();
    extend_str(&mut v, "Group not found: ");
    extend_str(&mut v, group);
    let mut out: Vec<String> = Vec::new();
    out.push(string_of(&v));
    assert(out@.map_values(|l: String| l@) =~= seq!["Group not found: "@ + group@]);
    out
}

/// Whether a command was not run for want of a valid command word or of
/// its arguments: an unknown word, an unknown autorun action, or too few
/// arguments.
pub open spec fn not_run(command: TuiCommand) -> bool {
    ||| command is Unknown
    ||| command is UnknownAutorunAction
    ||| command is Usage
}

/// The exit code of a one-shot terminal command: non-zero when the command
/// is unknown or was given too few arguments, or when running it failed;
/// 0 otherwise.
pub fn one_shot_exit_code(command: &TuiCommand, failed: bool) -> (r: i32)
    ensures
        r == (if failed || not_run(*command) {
            1i32
        } else {
            0i32
        }),
{
    let declined = match command {
        TuiCommand::Unknown(_) | TuiCommand::UnknownAutorunAction(_) | TuiCommand::Usage(_) => true,
        _ => false,
    };
    if failed || declined {
        1
    } else {
        0
    }
}


/// The command words taking arguments differ from every word tested
/// before them.
proof fn lemma_command_words_differ()
    ensures
        "presets"@ != "help"@ && "presets"@ != "?"@ && "presets"@ != "quit"@ && "presets"@ != "exit"@ && "presets"@ != "list"@ && "presets"@ != "ls"@ && "presets"@ != "groups"@,
        "apply"@ != "help"@ && "apply"@ != "?"@ && "apply"@ != "quit"@ && "apply"@ != "exit"@ && "apply"@ != "list"@ && "apply"@ != "ls"@ && "apply"@ != "groups"@,
        "create-group"@ != "help"@ && "create-group"@ != "?"@ && "create-group"@ != "quit"@ && "create-group"@ != "exit"@ && "create-group"@ != "list"@ && "create-group"@ != "ls"@ && "create-group"@ != "groups"@,
        "create-preset"@ != "help"@ && "create-preset"@ != "?"@ && "create-preset"@ != "quit"@ && "create-preset"@ != "exit"@ && "create-preset"@ != "list"@ && "create-preset"@ != "ls"@ && "create-preset"@ != "groups"@,
        "import"@ != "help"@ && "import"@ != "?"@ && "import"@ != "quit"@ && "import"@ != "exit"@ && "import"@ != "list"@ && "import"@ != "ls"@ && "import"@ != "groups"@,
        "config"@ != "help"@ && "config"@ != "?"@ && "config"@ != "quit"@ && "config"@ != "exit"@ && "config"@ != "list"@ && "config"@ != "ls"@ && "config"@ != "groups"@,
        "apply"@ != "presets"@,
        "create-group"@ != "presets"@ && "create-group"@ != "apply"@,
        "create-preset"@ != "presets"@ && "create-preset"@ != "apply"@ && "create-preset"@
            != "create-group"@,
        "import"@ != "presets"@ && "import"@ != "apply"@ && "import"@ != "create-group"@ && "import"@
            != "create-preset"@,
        "config"@ != "presets"@ && "config"@ != "apply"@ && "config"@ != "create-group"@ && "config"@
            != "create-preset"@ && "config"@ != "import"@,
{
    reveal_strlit("help");
    reveal_strlit("?");
    reveal_strlit("quit");
    reveal_strlit("exit");
    reveal_strlit("list");
    reveal_strlit("ls");
    reveal_strlit("groups");
    reveal_strlit("presets");
    reveal_strlit("apply");
    reveal_strlit("create-group");
    reveal_strlit("create-preset");
    reveal_strlit("import");
    reveal_strlit("config");
    assert("help"@.len() == 4);
    assert("?"@.len() == 1);
    assert("quit"@.len() == 4);
    assert("exit"@.len() == 4);
    assert("list"@.len() == 4);
    assert("ls"@.len() == 2);
    assert("groups"@.len() == 6);
    assert("presets"@.len() == 7);
    assert("apply"@.len() == 5);
    assert("create-group"@.len() == 12);
    assert("create-preset"@.len() == 13);
    assert("import"@.len() == 6);
    assert("config"@.len() == 6);
    assert("groups"@[0] != "import"@[0]);
    assert("groups"@[0] != "config"@[0]);
    assert("import"@[0] != "config"@[0]);
    assert("groups"@ != "import"@);
    assert("groups"@ != "config"@);
    assert("import"@ != "config"@);
}

/// `autorun` differs from every command word tested before it, and its
/// three actions differ from each other.
proof fn lemma_autorun_words_differ()
    ensures
        "autorun"@ != "help"@ && "autorun"@ != "?"@ && "autorun"@ != "quit"@ && "autorun"@ != "exit"@
            && "autorun"@ != "list"@ && "autorun"@ != "ls"@ && "autorun"@ != "groups"@,
        "autorun"@ != "presets"@ && "autorun"@ != "apply"@ && "autorun"@ != "create-group"@
            && "autorun"@ != "create-preset"@ && "autorun"@ != "import"@ && "autorun"@ != "config"@,
        "enable"@ != "status"@ && "disable"@ != "status"@ && "disable"@ != "enable"@,
{
    lemma_command_words_differ();
    reveal_strlit("help");
    reveal_strlit("?");
    reveal_strlit("quit");
    reveal_strlit("exit");
    reveal_strlit("list");
    reveal_strlit("ls");
    reveal_strlit("groups");
    reveal_strlit("presets");
    reveal_strlit("apply");
    reveal_strlit("create-group");
    reveal_strlit("create-preset");
    reveal_strlit("import");
    reveal_strlit("config");
    reveal_strlit("autorun");
    reveal_strlit("status");
    reveal_strlit("enable");
    reveal_strlit("disable");
    assert("autorun"@.len() == 7);
    assert("presets"@.len() == 7);
    assert("autorun"@[0] != "presets"@[0]);
    assert("status"@.len() == 6 && "enable"@.len() == 6 && "disable"@.len() == 7);
    assert("status"@[0] != "enable"@[0]);
}

/// The arguments of a command go where its usage line says: `presets
/// <group>`, `apply <group> <preset>`, `create-group <name>`, `create-preset
/// <group> <name>`, `import <group> <file>...` and `config <path>` take the
/// group, preset, name, files and path from those positions, whatever
/// else follows; `autorun <status|enable|disable>` asks for that action;
/// and each of them given too few arguments answers with a usage line.
pub proof fn lemma_command_arguments_in_order(args: Seq<Seq<char>>)
    ensures
        args.len() >= 2 && args[0] == "presets"@ ==> (tui_command(args) matches TuiCommandView::Presets(
            group,
        ) && group == args[1]),
        args.len() >= 3 && args[0] == "apply"@ ==> (tui_command(args) matches TuiCommandView::Apply(
            group,
            preset,
        ) && group == args[1] && preset == args[2]),
        args.len() >= 2 && args[0] == "create-group"@ ==> (tui_command(args)
            matches TuiCommandView::CreateGroup(name) && name == args[1]),
        args.len() >= 3 && args[0] == "create-preset"@ ==> (tui_command(args)
            matches TuiCommandView::CreatePreset(group, name) && group == args[1] && name == args[2]),
        args.len() >= 3 && args[0] == "import"@ ==> (tui_command(args) matches TuiCommandView::Import(
            g,
            files,
        ) && g == args[1] && files.len() == args.len() - 2 && forall|k: int|
            0 <= k < files.len() ==> #[trigger] files[k] == args[k + 2]),
        args.len() >= 2 && args[0] == "config"@ ==> (tui_command(args) matches TuiCommandView::Config(
            path,
        ) && path == args[1]),
        args.len() >= 2 && args[0] == "autorun"@ && args[1] == "status"@ ==> tui_command(args)
            == TuiCommandView::Autorun(AutorunAction::Status),
        args.len() >= 2 && args[0] == "autorun"@ && args[1] == "enable"@ ==> tui_command(args)
            == TuiCommandView::Autorun(AutorunAction::Enable),
        args.len() >= 2 && args[0] == "autorun"@ && args[1] == "disable"@ ==> tui_command(args)
            == TuiCommandView::Autorun(AutorunAction::Disable),
        args.len() == 1 && (args[0] == "presets"@ || args[0] == "create-group"@ || args[0]
            == "config"@ || args[0] == "autorun"@) ==> tui_command(args) is Usage,
        1 <= args.len() <= 2 && (args[0] == "apply"@ || args[0] == "create-preset"@ || args[0]
            == "import"@) ==> tui_command(args) is Usage,
{
    lemma_command_words_differ();
    lemma_autorun_words_differ();
}

} // verus!
