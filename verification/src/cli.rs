//! The command line: options, the command to run and its arguments.
use vstd::prelude::*;

use crate::handle::Opts;
use crate::text::{chars_of, eq_str, push_str, string_views};

verus! {

pub const COMPLETIONS_BASH: &'static str = "\
# bash completion for cargo-x — source this file or save it under
# /etc/bash_completion.d/ or ~/.local/share/bash-completion/completions/x
_x() {
    local cur=\"${COMP_WORDS[COMP_CWORD]}\"
    if [ \"$COMP_CWORD\" -eq 1 ]; then
        COMPREPLY=($(compgen -W \"$(x --comp-commands 2>/dev/null)\" -- \"$cur\"))
    fi
}
complete -F _x x cargo-x
";

pub const COMPLETIONS_ZSH: &'static str = "\
#compdef x cargo-x
# zsh completion for cargo-x — save as _x in a directory on your $fpath
_x() {
    if (( CURRENT == 2 )); then
        local -a cmds
        cmds=(${(f)\"$(x --comp-commands 2>/dev/null)\"})
        _describe 'command' cmds
    fi
}
compdef _x x cargo-x
";

pub const COMPLETIONS_FISH: &'static str = "\
# fish completion for cargo-x — save as ~/.config/fish/completions/x.fish
complete -c x -n '__fish_use_subcommand' -a '(x --comp-commands 2>/dev/null)'
complete -c cargo-x -n '__fish_use_subcommand' -a '(x --comp-commands 2>/dev/null)'
";

/// The completion script for a shell, or the error for an unknown shell.
pub open spec fn completions_spec(shell: Seq<char>) -> Result<Seq<char>, Seq<char>> {
    if shell == "bash"@ {
        Ok(COMPLETIONS_BASH@)
    } else if shell == "zsh"@ {
        Ok(COMPLETIONS_ZSH@)
    } else if shell == "fish"@ {
        Ok(COMPLETIONS_FISH@)
    } else {
        Err("unsupported shell `"@ + shell + "` (expected bash, zsh, or fish)"@)
    }
}

/// The completion script for `bash`, `zsh` or `fish`.
pub fn completions(shell: &str) -> (r: Result<&'static str, String>)
    ensures
        match completions_spec(shell@) {
            Ok(s) => r matches Ok(t) && t@ == s,
            Err(m) => r matches Err(e) && e@ == m,
        },
{
    let v = chars_of(shell);
    if eq_str(&v, "bash") {
        Ok(COMPLETIONS_BASH)
    } else if eq_str(&v, "zsh") {
        Ok(COMPLETIONS_ZSH)
    } else if eq_str(&v, "fish") {
        Ok(COMPLETIONS_FISH)
    } else {
        let mut m = String::new();
        push_str(&mut m, "unsupported shell `");
        push_str(&mut m, shell);
        push_str(&mut m, "` (expected bash, zsh, or fish)");
        Err(m)
    }
}

/// `s` ends with `p`.
pub open spec fn has_suffix(s: Seq<char>, p: Seq<char>) -> bool {
    p.len() <= s.len() && s.skip(s.len() - p.len()) == p
}

fn ends_with_exec(s: &str, p: &str) -> (b: bool)
    ensures
        b == has_suffix(s@, p@),
{
    let sv = chars_of(s);
    let pv = chars_of(p);
    if pv.len() > sv.len() {
        return false;
    }
    let tail = crate::text::slice_chars(&sv, sv.len() - pv.len(), sv.len());
    assert(tail@ =~= sv@.skip(sv@.len() - pv@.len()));
    crate::text::eq_chars(&tail, &pv)
}

/// The arguments after the program name; run as `cargo x`, the program is
/// `cargo-x` followed by `x`, which is dropped too.
pub open spec fn program_args(argv: Seq<Seq<char>>, main_cmd: Seq<char>) -> Seq<Seq<char>> {
    if argv.len() >= 2 && has_suffix(argv[0], main_cmd) && argv[1] == "x"@ {
        argv.skip(2)
    } else {
        argv.skip(1)
    }
}

/// The arguments after the program name (and after `x` when run as `cargo x`).
pub fn cli_args(argv: &Vec<String>, main_cmd: &str) -> (args: Vec<String>)
    requires
        argv.len() >= 1,
    ensures
        string_views(args@) == program_args(string_views(argv@), main_cmd@),
{
    let mut start: usize = 1;
    if argv.len() >= 2 && ends_with_exec(argv[0].as_str(), main_cmd) && eq_str(
        &chars_of(argv[1].as_str()),
        "x",
    ) {
        start = 2;
    }
    let mut out: Vec<String> = Vec::new();
    let mut i: usize = start;
    let ghost av = string_views(argv@);
    assert(av.subrange(start as int, start as int) =~= Seq::<Seq<char>>::empty());
    while i < argv.len()
        invariant
            start <= i <= argv.len(),
            av == string_views(argv@),
            string_views(out@) == av.subrange(start as int, i as int),
        decreases argv.len() - i,
    {
        let ghost before = string_views(out@);
        out.push(argv[i].clone());
        assert(string_views(out@) =~= before.push(av[i as int]));
        assert(av.subrange(start as int, i + 1) =~= av.subrange(start as int, i as int).push(
            av[i as int],
        ));
        i += 1;
    }
    assert(av.subrange(start as int, argv.len() as int) =~= av.skip(start as int));
    out
}

/// What the command line asks for.
pub enum Invocation {
    /// `-h`, `--help`
    Help,
    /// `-V`, `--version`
    Version,
    /// `-l`, `--list`
    List { auto_detect: bool },
    /// `-s`, `--show NAME`
    Show { command: String, auto_detect: bool },
    /// `--init`
    Init,
    /// `--completions SHELL`
    Completions { shell: String },
    /// `--comp-commands`
    CompCommands { auto_detect: bool },
    /// Run a command, or list them when none is named.
    Run { name: Option<String>, args: Vec<String>, opts: Opts, watch: bool, auto_detect: bool },
}

pub enum InvocationView {
    Help,
    Version,
    List { auto_detect: bool },
    Show { command: Seq<char>, auto_detect: bool },
    Init,
    Completions { shell: Seq<char> },
    CompCommands { auto_detect: bool },
    Run {
        name: Option<Seq<char>>,
        args: Seq<Seq<char>>,
        opts: Opts,
        watch: bool,
        auto_detect: bool,
    },
}

impl View for Invocation {
    type V = InvocationView;

    open spec fn view(&self) -> InvocationView {
        match self {
            Invocation::Help => InvocationView::Help,
            Invocation::Version => InvocationView::Version,
            Invocation::List { auto_detect } => InvocationView::List { auto_detect: *auto_detect },
            Invocation::Show { command, auto_detect } => InvocationView::Show {
                command: command@,
                auto_detect: *auto_detect,
            },
            Invocation::Init => InvocationView::Init,
            Invocation::Completions { shell } => InvocationView::Completions { shell: shell@ },
            Invocation::CompCommands { auto_detect } => InvocationView::CompCommands {
                auto_detect: *auto_detect,
            },
            Invocation::Run { name, args, opts, watch, auto_detect } => InvocationView::Run {
                name: crate::config::opt_view(*name),
                args: string_views(args@),
                opts: *opts,
                watch: *watch,
                auto_detect: *auto_detect,
            },
        }
    }
}

/// What the options read so far have set.
pub struct ArgState {
    pub opts: Opts,
    pub watch: bool,
    pub auto_detect: bool,
    pub name: Option<Seq<char>>,
    pub args: Seq<Seq<char>>,
}

/// The state before any option is read.
pub open spec fn initial_state() -> ArgState {
    ArgState {
        opts: Opts { dry_run: false, quiet: false },
        watch: false,
        auto_detect: true,
        name: None,
        args: Seq::empty(),
    }
}

/// The command's arguments: a leading `--` is a separator, not an argument.
pub open spec fn drop_separator(args: Seq<Seq<char>>) -> Seq<Seq<char>> {
    if args.len() > 0 && args[0] == "--"@ {
        args.drop_first()
    } else {
        args
    }
}

/// Reads the arguments from position `i` on.  Before the command name,
/// options are read in order: some act at once (help, version, list, show,
/// init, completions), others set flags; `--` names the command that follows
/// it; an unknown option is an error.  Everything after the command name
/// belongs to the command.
pub open spec fn parse_from(args: Seq<Seq<char>>, i: int, st: ArgState) -> Result<
    InvocationView,
    Seq<char>,
>
    decreases args.len() - i,
{
    if i < 0 || i >= args.len() {
        Ok(
            InvocationView::Run {
                name: st.name,
                args: drop_separator(st.args),
                opts: st.opts,
                watch: st.watch,
                auto_detect: st.auto_detect,
            },
        )
    } else {
        let a = args[i];
        if st.name is Some {
            parse_from(args, i + 1, ArgState { args: st.args.push(a), ..st })
        } else if a == "-h"@ || a == "--help"@ {
            Ok(InvocationView::Help)
        } else if a == "-V"@ || a == "--version"@ {
            Ok(InvocationView::Version)
        } else if a == "-l"@ || a == "--list"@ {
            Ok(InvocationView::List { auto_detect: st.auto_detect })
        } else if a == "-s"@ || a == "--show"@ {
            if i + 1 < args.len() {
                Ok(InvocationView::Show { command: args[i + 1], auto_detect: st.auto_detect })
            } else {
                Err("--show needs a command name"@)
            }
        } else if a == "--init"@ {
            Ok(InvocationView::Init)
        } else if a == "--completions"@ {
            if i + 1 < args.len() {
                Ok(InvocationView::Completions { shell: args[i + 1] })
            } else {
                Err("--completions needs a shell: bash|zsh|fish"@)
            }
        } else if a == "--comp-commands"@ {
            Ok(InvocationView::CompCommands { auto_detect: st.auto_detect })
        } else if a == "-n"@ || a == "--dry-run"@ {
            parse_from(
                args,
                i + 1,
                ArgState { opts: Opts { dry_run: true, quiet: st.opts.quiet }, ..st },
            )
        } else if a == "-q"@ || a == "--quiet"@ {
            parse_from(
                args,
                i + 1,
                ArgState { opts: Opts { dry_run: st.opts.dry_run, quiet: true }, ..st },
            )
        } else if a == "-w"@ || a == "--watch"@ {
            parse_from(args, i + 1, ArgState { watch: true, ..st })
        } else if a == "--no-auto"@ {
            parse_from(args, i + 1, ArgState { auto_detect: false, ..st })
        } else if a == "--"@ {
            if i + 1 < args.len() {
                parse_from(args, i + 2, ArgState { name: Some(args[i + 1]), ..st })
            } else {
                parse_from(args, i + 1, st)
            }
        } else if a.len() > 1 && a[0] == '-' {
            Err("unknown option `"@ + a + "`"@)
        } else {
            parse_from(args, i + 1, ArgState { name: Some(a), ..st })
        }
    }
}

proof fn lemma_parse_from_rest(a: Seq<Seq<char>>, b: Seq<Seq<char>>, j: int)
    requires
        a.len() == b.len(),
        0 <= j,
        forall|m: int| j <= m < a.len() ==> a[m] == b[m],
    ensures
        forall|st: ArgState| #[trigger] parse_from(a, j, st) == parse_from(b, j, st),
    decreases a.len() - j,
{
    if j < a.len() {
        lemma_parse_from_rest(a, b, j + 1);
        if j + 2 <= a.len() {
            lemma_parse_from_rest(a, b, j + 2);
        }
    }
    assert forall|st: ArgState| #[trigger] parse_from(a, j, st) == parse_from(b, j, st) by {
        if j < a.len() {
            assert(a[j] == b[j]);
            assert(a.len() == b.len());
            let x = a[j];
            if st.name is Some {
                assert(parse_from(a, j, st) == parse_from(a, j + 1, ArgState { args: st.args.push(x), ..st }));
                assert(parse_from(b, j, st) == parse_from(b, j + 1, ArgState { args: st.args.push(x), ..st }));
            } else if x == "-h"@ || x == "--help"@ {
                assert(parse_from(a, j, st) == parse_from(b, j, st));
            } else if x == "-V"@ || x == "--version"@ {
                assert(parse_from(a, j, st) == parse_from(b, j, st));
            } else if x == "-l"@ || x == "--list"@ {
                assert(parse_from(a, j, st) == parse_from(b, j, st));
            } else if x == "-s"@ || x == "--show"@ {
                assert(parse_from(a, j, st) == parse_from(b, j, st));
            } else if x == "--init"@ {
                assert(parse_from(a, j, st) == parse_from(b, j, st));
            } else if x == "--completions"@ {
                assert(parse_from(a, j, st) == parse_from(b, j, st));
            } else if x == "--comp-commands"@ {
                assert(parse_from(a, j, st) == parse_from(b, j, st));
            } else if x == "-n"@ || x == "--dry-run"@ {
                let st2 = ArgState { opts: Opts { dry_run: true, quiet: st.opts.quiet }, ..st };
                assert(parse_from(a, j + 1, st2) == parse_from(b, j + 1, st2));
                assert(parse_from(a, j, st) == parse_from(a, j + 1, st2));
                assert(parse_from(b, j, st) == parse_from(b, j + 1, st2));
            } else if x == "-q"@ || x == "--quiet"@ {
                let st2 = ArgState { opts: Opts { dry_run: st.opts.dry_run, quiet: true }, ..st };
                assert(parse_from(a, j + 1, st2) == parse_from(b, j + 1, st2));
                assert(parse_from(a, j, st) == parse_from(a, j + 1, st2));
                assert(parse_from(b, j, st) == parse_from(b, j + 1, st2));
            } else if x == "-w"@ || x == "--watch"@ {
                let st2 = ArgState { watch: true, ..st };
                assert(parse_from(a, j + 1, st2) == parse_from(b, j + 1, st2));
                assert(parse_from(a, j, st) == parse_from(a, j + 1, st2));
                assert(parse_from(b, j, st) == parse_from(b, j + 1, st2));
            } else if x == "--no-auto"@ {
                let st2 = ArgState { auto_detect: false, ..st };
                assert(parse_from(a, j + 1, st2) == parse_from(b, j + 1, st2));
                assert(parse_from(a, j, st) == parse_from(a, j + 1, st2));
                assert(parse_from(b, j, st) == parse_from(b, j + 1, st2));
            } else if x == "--"@ {
                if j + 1 < a.len() {
                    let st2 = ArgState { name: Some(a[j + 1]), ..st };
                    assert(parse_from(a, j + 2, st2) == parse_from(b, j + 2, st2));
                    assert(parse_from(a, j, st) == parse_from(a, j + 2, st2));
                    assert(parse_from(b, j, st) == parse_from(b, j + 2, st2));
                } else {
                    assert(parse_from(a, j + 1, st) == parse_from(b, j + 1, st));
                    assert(parse_from(a, j, st) == parse_from(a, j + 1, st));
                    assert(parse_from(b, j, st) == parse_from(b, j + 1, st));
                }
            } else if x.len() > 1 && x[0] == '-' {
                assert(parse_from(a, j, st) == parse_from(b, j, st));
            } else {
                let st2 = ArgState { name: Some(x), ..st };
                assert(parse_from(a, j + 1, st2) == parse_from(b, j + 1, st2));
                assert(parse_from(a, j, st) == parse_from(a, j + 1, st2));
                assert(parse_from(b, j, st) == parse_from(b, j + 1, st2));
            }
        }
    }
}

/// Each long option means exactly what its short form means: before the
/// command name, `--dry-run`, `--quiet`, `--watch`, `--list`, `--show`,
/// `--help` and `--version` read as `-n`, `-q`, `-w`, `-l`, `-s`, `-h` and
/// `-V`, wherever they stand and whatever comes before or after them.
pub proof fn lemma_long_options_as_short(args: Seq<Seq<char>>, i: int, st: ArgState)
    requires
        0 <= i < args.len(),
        st.name is None,
    ensures
        args[i] == "--dry-run"@ ==> parse_from(args, i, st) == parse_from(args.update(i, "-n"@), i, st),
        args[i] == "--quiet"@ ==> parse_from(args, i, st) == parse_from(args.update(i, "-q"@), i, st),
        args[i] == "--watch"@ ==> parse_from(args, i, st) == parse_from(args.update(i, "-w"@), i, st),
        args[i] == "--list"@ ==> parse_from(args, i, st) == parse_from(args.update(i, "-l"@), i, st),
        args[i] == "--show"@ ==> parse_from(args, i, st) == parse_from(args.update(i, "-s"@), i, st),
        args[i] == "--help"@ ==> parse_from(args, i, st) == parse_from(args.update(i, "-h"@), i, st),
        args[i] == "--version"@ ==> parse_from(args, i, st) == parse_from(args.update(i, "-V"@), i, st),
{
    reveal_strlit("-h");
    reveal_strlit("--help");
    reveal_strlit("-V");
    reveal_strlit("--version");
    reveal_strlit("-l");
    reveal_strlit("--list");
    reveal_strlit("-s");
    reveal_strlit("--show");
    reveal_strlit("--init");
    reveal_strlit("--completions");
    reveal_strlit("--comp-commands");
    reveal_strlit("-n");
    reveal_strlit("--dry-run");
    reveal_strlit("-q");
    reveal_strlit("--quiet");
    reveal_strlit("-w");
    reveal_strlit("--watch");
    reveal_strlit("--no-auto");
    reveal_strlit("--");
    assert("-h"@[1] != "-V"@[1]);
    assert("-h"@[1] != "-l"@[1]);
    assert("-h"@[1] != "-s"@[1]);
    assert("-h"@[1] != "-n"@[1]);
    assert("-h"@[1] != "-q"@[1]);
    assert("-h"@[1] != "-w"@[1]);
    assert("-h"@[1] != "--"@[1]);
    assert("--help"@[2] != "--list"@[2]);
    assert("--help"@[2] != "--show"@[2]);
    assert("--help"@[2] != "--init"@[2]);
    assert("-V"@[1] != "-l"@[1]);
    assert("-V"@[1] != "-s"@[1]);
    assert("-V"@[1] != "-n"@[1]);
    assert("-V"@[1] != "-q"@[1]);
    assert("-V"@[1] != "-w"@[1]);
    assert("-V"@[1] != "--"@[1]);
    assert("--version"@[2] != "--dry-run"@[2]);
    assert("--version"@[2] != "--no-auto"@[2]);
    assert("-l"@[1] != "-s"@[1]);
    assert("-l"@[1] != "-n"@[1]);
    assert("-l"@[1] != "-q"@[1]);
    assert("-l"@[1] != "-w"@[1]);
    assert("-l"@[1] != "--"@[1]);
    assert("--list"@[2] != "--show"@[2]);
    assert("--list"@[2] != "--init"@[2]);
    assert("-s"@[1] != "-n"@[1]);
    assert("-s"@[1] != "-q"@[1]);
    assert("-s"@[1] != "-w"@[1]);
    assert("-s"@[1] != "--"@[1]);
    assert("--show"@[2] != "--init"@[2]);
    assert("-n"@[1] != "-q"@[1]);
    assert("-n"@[1] != "-w"@[1]);
    assert("-n"@[1] != "--"@[1]);
    assert("--dry-run"@[2] != "--no-auto"@[2]);
    assert("-q"@[1] != "-w"@[1]);
    assert("-q"@[1] != "--"@[1]);
    assert("--quiet"@[2] != "--watch"@[2]);
    assert("-w"@[1] != "--"@[1]);
    let bn = args.update(i, "-n"@);
    let bq = args.update(i, "-q"@);
    let bw = args.update(i, "-w"@);
    lemma_parse_from_rest(args, bn, i + 1);
    lemma_parse_from_rest(args, bq, i + 1);
    lemma_parse_from_rest(args, bw, i + 1);
    if args[i] == "--dry-run"@ {
        let st2 = ArgState { opts: Opts { dry_run: true, quiet: st.opts.quiet }, ..st };
        assert(bn[i] == "-n"@);
        assert(parse_from(args, i + 1, st2) == parse_from(bn, i + 1, st2));
        assert(parse_from(args, i, st) == parse_from(args, i + 1, st2));
        assert(parse_from(bn, i, st) == parse_from(bn, i + 1, st2));
    }
    if args[i] == "--quiet"@ {
        let st2 = ArgState { opts: Opts { dry_run: st.opts.dry_run, quiet: true }, ..st };
        assert(bq[i] == "-q"@);
        assert(parse_from(args, i + 1, st2) == parse_from(bq, i + 1, st2));
        assert(parse_from(args, i, st) == parse_from(args, i + 1, st2));
        assert(parse_from(bq, i, st) == parse_from(bq, i + 1, st2));
    }
    if args[i] == "--watch"@ {
        let st2 = ArgState { watch: true, ..st };
        assert(bw[i] == "-w"@);
        assert(parse_from(args, i + 1, st2) == parse_from(bw, i + 1, st2));
        assert(parse_from(args, i, st) == parse_from(args, i + 1, st2));
        assert(parse_from(bw, i, st) == parse_from(bw, i + 1, st2));
    }
    if args[i] == "--show"@ && i + 1 < args.len() {
        assert(args.update(i, "-s"@)[i + 1] == args[i + 1]);
    }
}

/// Reads the command line (the arguments after the program name).
pub fn parse_args(args: &Vec<String>) -> (r: Result<Invocation, String>)
    ensures
        match parse_from(string_views(args@), 0, initial_state()) {
            Ok(v) => r matches Ok(inv) && inv@ == v,
            Err(m) => r matches Err(e) && e@ == m,
        },
{
    let ghost av = string_views(args@);
    let mut opts = Opts { dry_run: false, quiet: false };
    let mut watch = false;
    let mut auto_detect = true;
    let mut name: Option<String> = None;
    let mut cmd_args: Vec<String> = Vec::new();
    let mut i: usize = 0;
    assert(string_views(cmd_args@) =~= Seq::<Seq<char>>::empty());
    while i < args.len()
        invariant
            i <= args.len(),
            av == string_views(args@),
            parse_from(av, 0, initial_state()) == parse_from(
                av,
                i as int,
                ArgState {
                    opts: opts,
                    watch: watch,
                    auto_detect: auto_detect,
                    name: crate::config::opt_view(name),
                    args: string_views(cmd_args@),
                },
            ),
        decreases args.len() - i,
    {
        let arg = &args[i];
        if name.is_some() {
            let ghost before = string_views(cmd_args@);
            cmd_args.push(arg.clone());
            assert(string_views(cmd_args@) =~= before.push(av[i as int]));
            i += 1;
            continue;
        }
        let a = chars_of(arg.as_str());
        if eq_str(&a, "-h") || eq_str(&a, "--help") {
            return Ok(Invocation::Help);
        } else if eq_str(&a, "-V") || eq_str(&a, "--version") {
            return Ok(Invocation::Version);
        } else if eq_str(&a, "-l") || eq_str(&a, "--list") {
            return Ok(Invocation::List { auto_detect });
        } else if eq_str(&a, "-s") || eq_str(&a, "--show") {
            if i + 1 < args.len() {
                return Ok(Invocation::Show { command: args[i + 1].clone(), auto_detect });
            } else {
                return Err("--show needs a command name".to_owned());
            }
        } else if eq_str(&a, "--init") {
            return Ok(Invocation::Init);
        } else if eq_str(&a, "--completions") {
            if i + 1 < args.len() {
                return Ok(Invocation::Completions { shell: args[i + 1].clone() });
            } else {
                return Err("--completions needs a shell: bash|zsh|fish".to_owned());
            }
        } else if eq_str(&a, "--comp-commands") {
            return Ok(Invocation::CompCommands { auto_detect });
        } else if eq_str(&a, "-n") || eq_str(&a, "--dry-run") {
            opts.dry_run = true;
        } else if eq_str(&a, "-q") || eq_str(&a, "--quiet") {
            opts.quiet = true;
        } else if eq_str(&a, "-w") || eq_str(&a, "--watch") {
            watch = true;
        } else if eq_str(&a, "--no-auto") {
            auto_detect = false;
        } else if eq_str(&a, "--") {
            if i + 1 < args.len() {
                name = Some(args[i + 1].clone());
                i += 1;
            }
        } else if a.len() > 1 && a[0] == '-' {
            let mut m = String::new();
            push_str(&mut m, "unknown option `");
            push_str(&mut m, arg.as_str());
            push_str(&mut m, "`");
            return Err(m);
        } else {
            name = Some(arg.clone());
        }
        i += 1;
    }
    if cmd_args.len() > 0 && eq_str(&chars_of(cmd_args[0].as_str()), "--") {
        let ghost before = string_views(cmd_args@);
        cmd_args.remove(0);
        assert(string_views(cmd_args@) =~= before.drop_first());
    }
    Ok(Invocation::Run { name, args: cmd_args, opts, watch, auto_detect })
}

} // verus!
