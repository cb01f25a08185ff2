//! Whole runs: what driving the runner to the end performs, stated as the
//! recursive meaning of running a command, nested sequences included.
use vstd::prelude::*;

use crate::config::{KindView, XconfView};
use crate::handle::{
    advance_spec, dispatch, pop_done, resolve_spec, resume_spec, ActionView, FrameView, Opts,
    ShellKind, StepView, MAX_ALIAS_DEPTH,
};

verus! {

/// A whole run as the program drives the runner: each shell command asked
/// for is performed, the `k`-th one exiting with `code(k)`, until the runner
/// finishes. The shell steps performed, the final status and the messages;
/// `None` when it takes more than `fuel` runner steps.
pub open spec fn run_trace(
    shell: ShellKind,
    opts: Opts,
    conf: XconfView,
    frames: Seq<FrameView>,
    a: ActionView,
    code: spec_fn(nat) -> int,
    k: nat,
    fuel: nat,
) -> Option<(Seq<StepView>, int, Seq<Seq<char>>)>
    decreases fuel,
{
    if fuel == 0 {
        None
    } else {
        match a {
            ActionView::Finish(c, errors) => Some((Seq::empty(), c, errors)),
            ActionView::Continue => {
                let (f2, a2) = advance_spec(shell, opts, conf, frames);
                run_trace(shell, opts, conf, f2, a2, code, k, (fuel - 1) as nat)
            },
            ActionView::Run(step) => {
                let (f2, a2) = resume_spec(shell, opts, conf, frames, code(k));
                match run_trace(shell, opts, conf, f2, a2, code, k + 1, (fuel - 1) as nat) {
                    Some((steps, c, errors)) => Some((seq![step] + steps, c, errors)),
                    None => None,
                }
            },
        }
    }
}

/// What running a command performs: the shell steps in order, the status it
/// ends with, its messages, how many shell commands had run after it
/// (`next`), and how many runner steps it takes beyond the first (`cost`).
pub struct Outcome {
    pub steps: Seq<StepView>,
    pub status: int,
    pub errors: Seq<Seq<char>>,
    pub next: nat,
    pub cost: nat,
}

/// The steps of the sequence `name` resolves to.
pub open spec fn sequence_steps(conf: XconfView, name: Seq<char>) -> Seq<Seq<char>> {
    conf.commands[resolve_spec(name, conf.aliases, MAX_ALIAS_DEPTH as nat)->Ok_0].kind->Sequence_0
}

/// Running `name` with `args` when `k` shell commands have run so far, the
/// `j`-th exiting with `code(j)`: a name that does not resolve, or a
/// sequence given arguments, fails at once with status 1 and its message; a
/// shell command is one step, ending with its exit status; a sequence runs
/// its steps in order, each as a command of its own, and the first that
/// ends with a status other than 0 ends the sequence with that status and
/// message, later steps not running. `None` when sequences nest more than
/// `depth` levels.
pub open spec fn name_outcome(
    shell: ShellKind,
    opts: Opts,
    conf: XconfView,
    name: Seq<char>,
    args: Seq<Seq<char>>,
    code: spec_fn(nat) -> int,
    k: nat,
    depth: nat,
) -> Option<Outcome>
    decreases depth, 0int, 0int,
{
    match dispatch(shell, opts, conf, name, args, Seq::empty()).1 {
        ActionView::Finish(c, e) => Some(
            Outcome { steps: Seq::empty(), status: c, errors: e, next: k, cost: 0 },
        ),
        ActionView::Run(st) => if code(k) != 0 {
            Some(Outcome { steps: seq![st], status: code(k), errors: Seq::empty(), next: k + 1, cost: 1 })
        } else {
            Some(Outcome { steps: seq![st], status: 0, errors: Seq::empty(), next: k + 1, cost: 0 })
        },
        ActionView::Continue => if depth == 0 {
            None
        } else {
            steps_outcome(
                shell,
                opts,
                conf,
                sequence_steps(conf, name),
                0,
                code,
                k,
                (depth - 1) as nat,
            )
        },
    }
}

/// Running the steps of a sequence from the `i`-th on, each with no
/// arguments, in order, stopping at the first that ends with a status other
/// than 0.
pub open spec fn steps_outcome(
    shell: ShellKind,
    opts: Opts,
    conf: XconfView,
    steps: Seq<Seq<char>>,
    i: int,
    code: spec_fn(nat) -> int,
    k: nat,
    depth: nat,
) -> Option<Outcome>
    decreases depth, 1int, steps.len() - i,
{
    if i < 0 || i >= steps.len() {
        Some(Outcome { steps: Seq::empty(), status: 0, errors: Seq::empty(), next: k, cost: 0 })
    } else {
        match name_outcome(shell, opts, conf, steps[i], Seq::empty(), code, k, depth) {
            None => None,
            Some(o1) => if o1.status != 0 {
                Some(
                    Outcome {
                        steps: o1.steps,
                        status: o1.status,
                        errors: o1.errors,
                        next: o1.next,
                        cost: o1.cost + 1,
                    },
                )
            } else {
                match steps_outcome(shell, opts, conf, steps, i + 1, code, o1.next, depth) {
                    None => None,
                    Some(o2) => Some(
                        Outcome {
                            steps: o1.steps + o2.steps,
                            status: o2.status,
                            errors: o2.errors,
                            next: o2.next,
                            cost: 1 + o1.cost + o2.cost,
                        },
                    ),
                }
            },
        }
    }
}

/// The steps performed before what `t` performs.
pub open spec fn prepend(
    s: Seq<StepView>,
    t: Option<(Seq<StepView>, int, Seq<Seq<char>>)>,
) -> Option<(Seq<StepView>, int, Seq<Seq<char>>)> {
    match t {
        Some((ss, c, e)) => Some((s + ss, c, e)),
        None => None,
    }
}

/// What the runner does after the command of outcome `o` ends, with the
/// frames `below` left: stop when it failed, else go on with `below`.
pub open spec fn then_below(
    shell: ShellKind,
    opts: Opts,
    conf: XconfView,
    o: Outcome,
    below: Seq<FrameView>,
    code: spec_fn(nat) -> int,
    fuel: nat,
) -> Option<(Seq<StepView>, int, Seq<Seq<char>>)> {
    if o.status != 0 {
        Some((o.steps, o.status, o.errors))
    } else {
        prepend(
            o.steps,
            run_trace(shell, opts, conf, below, ActionView::Continue, code, o.next, (fuel - o.cost) as nat),
        )
    }
}

proof fn lemma_advance_past_done(
    shell: ShellKind,
    opts: Opts,
    conf: XconfView,
    below: Seq<FrameView>,
    f: FrameView,
)
    requires
        f.next >= f.steps.len(),
    ensures
        advance_spec(shell, opts, conf, below.push(f)) == advance_spec(shell, opts, conf, below),
{
    assert(below.push(f).drop_last() =~= below);
    assert(pop_done(below.push(f)) == pop_done(below));
}

proof fn lemma_name_run(
    shell: ShellKind,
    opts: Opts,
    conf: XconfView,
    name: Seq<char>,
    args: Seq<Seq<char>>,
    below: Seq<FrameView>,
    code: spec_fn(nat) -> int,
    k: nat,
    depth: nat,
    fuel: nat,
)
    requires
        name_outcome(shell, opts, conf, name, args, code, k, depth) is Some,
        fuel >= name_outcome(shell, opts, conf, name, args, code, k, depth)->0.cost + 1,
    ensures
        ({
            let (f, a) = dispatch(shell, opts, conf, name, args, below);
            run_trace(shell, opts, conf, f, a, code, k, fuel) == then_below(
                shell,
                opts,
                conf,
                name_outcome(shell, opts, conf, name, args, code, k, depth)->0,
                below,
                code,
                fuel,
            )
        }),
    decreases depth, 0int, 0int,
{
    let o = name_outcome(shell, opts, conf, name, args, code, k, depth)->0;
    let (f, a) = dispatch(shell, opts, conf, name, args, below);
    match dispatch(shell, opts, conf, name, args, Seq::empty()).1 {
        ActionView::Finish(c, e) => {
            assert(a == ActionView::Finish(c, e));
            assert(c == 1);
        },
        ActionView::Run(st) => {
            assert(a == ActionView::Run(st));
            assert(f == below);
            let (f2, a2) = resume_spec(shell, opts, conf, below, code(k));
            if code(k) != 0 {
                assert(run_trace(shell, opts, conf, f2, a2, code, k + 1, (fuel - 1) as nat) == Some(
                    (Seq::<StepView>::empty(), code(k), Seq::<Seq<char>>::empty()),
                ));
                assert(seq![st] + Seq::<StepView>::empty() =~= seq![st]);
            } else {
                assert(run_trace(shell, opts, conf, below, ActionView::Continue, code, k + 1, fuel)
                    == run_trace(shell, opts, conf, f2, a2, code, k + 1, (fuel - 1) as nat));
            }
        },
        ActionView::Continue => {
            let steps = sequence_steps(conf, name);
            assert(a == ActionView::Continue);
            assert(f == below.push(FrameView { steps: steps, next: 0 }));
            lemma_steps_run(shell, opts, conf, steps, 0, below, code, k, (depth - 1) as nat, fuel);
        },
    }
}

proof fn lemma_steps_run(
    shell: ShellKind,
    opts: Opts,
    conf: XconfView,
    steps: Seq<Seq<char>>,
    i: int,
    below: Seq<FrameView>,
    code: spec_fn(nat) -> int,
    k: nat,
    depth: nat,
    fuel: nat,
)
    requires
        0 <= i <= steps.len(),
        steps_outcome(shell, opts, conf, steps, i, code, k, depth) is Some,
        fuel >= steps_outcome(shell, opts, conf, steps, i, code, k, depth)->0.cost + 1,
    ensures
        run_trace(
            shell,
            opts,
            conf,
            below.push(FrameView { steps: steps, next: i as nat }),
            ActionView::Continue,
            code,
            k,
            fuel,
        ) == then_below(
            shell,
            opts,
            conf,
            steps_outcome(shell, opts, conf, steps, i, code, k, depth)->0,
            below,
            code,
            fuel,
        ),
    decreases depth, 1int, steps.len() - i,
{
    let fi = FrameView { steps: steps, next: i as nat };
    let stack = below.push(fi);
    if i == steps.len() {
        lemma_advance_past_done(shell, opts, conf, below, fi);
        assert(Seq::<StepView>::empty() + Seq::<StepView>::empty() =~= Seq::<StepView>::empty());
        match run_trace(shell, opts, conf, below, ActionView::Continue, code, k, fuel) {
            Some((ss, c, e)) => {
                assert(Seq::<StepView>::empty() + ss =~= ss);
            },
            None => {},
        }
    } else {
        let fnext = FrameView { steps: steps, next: (i + 1) as nat };
        assert(stack.drop_last() =~= below);
        assert(pop_done(stack) == stack);
        assert(stack.update(stack.len() - 1, fnext) =~= below.push(fnext));
        assert(advance_spec(shell, opts, conf, stack) == dispatch(
            shell,
            opts,
            conf,
            steps[i],
            Seq::empty(),
            below.push(fnext),
        ));
        let o1 = name_outcome(shell, opts, conf, steps[i], Seq::empty(), code, k, depth)->0;
        lemma_name_run(
            shell,
            opts,
            conf,
            steps[i],
            Seq::empty(),
            below.push(fnext),
            code,
            k,
            depth,
            (fuel - 1) as nat,
        );
        if o1.status == 0 {
            let o2 = steps_outcome(shell, opts, conf, steps, i + 1, code, o1.next, depth)->0;
            lemma_steps_run(
                shell,
                opts,
                conf,
                steps,
                i + 1,
                below,
                code,
                o1.next,
                depth,
                (fuel - 1 - o1.cost) as nat,
            );
            if o2.status == 0 {
                match run_trace(
                    shell,
                    opts,
                    conf,
                    below,
                    ActionView::Continue,
                    code,
                    o2.next,
                    (fuel - 1 - o1.cost - o2.cost) as nat,
                ) {
                    Some((ss, c, e)) => {
                        assert(o1.steps + (o2.steps + ss) =~= (o1.steps + o2.steps) + ss);
                    },
                    None => {},
                }
            }
        }
    }
}

/// A whole run is the meaning of its command: when `name_outcome` gives an
/// outcome, driving the runner from the start of `name` performs exactly
/// the outcome's shell steps, in order, and ends with its status (and, on
/// failure, its messages).
pub proof fn lemma_run_is_outcome(
    shell: ShellKind,
    opts: Opts,
    conf: XconfView,
    name: Seq<char>,
    args: Seq<Seq<char>>,
    code: spec_fn(nat) -> int,
    depth: nat,
)
    requires
        name_outcome(shell, opts, conf, name, args, code, 0, depth) is Some,
    ensures
        ({
            let o = name_outcome(shell, opts, conf, name, args, code, 0, depth)->0;
            let (f, a) = dispatch(shell, opts, conf, name, args, Seq::empty());
            run_trace(shell, opts, conf, f, a, code, 0, o.cost + 2) == Some(
                (o.steps, o.status, if o.status == 0 { Seq::empty() } else { o.errors }),
            )
        }),
{
    let o = name_outcome(shell, opts, conf, name, args, code, 0, depth)->0;
    lemma_name_run(shell, opts, conf, name, args, Seq::empty(), code, 0, depth, o.cost + 2);
    if o.status == 0 {
        let e = Seq::<FrameView>::empty();
        assert(pop_done(e) == e);
        assert(advance_spec(shell, opts, conf, e) == (e, ActionView::Finish(0, Seq::empty())));
        assert(run_trace(shell, opts, conf, e, ActionView::Finish(0, Seq::empty()), code, o.next, 1)
            == Some((Seq::<StepView>::empty(), 0int, Seq::<Seq<char>>::empty())));
        assert(run_trace(shell, opts, conf, e, ActionView::Continue, code, o.next, 2) == Some(
            (Seq::<StepView>::empty(), 0int, Seq::<Seq<char>>::empty()),
        ));
        assert(o.steps + Seq::<StepView>::empty() =~= o.steps);
    }
}

// ---------------------------------------------------------------------------
// Acyclic configurations: every run ends
// ---------------------------------------------------------------------------

/// The sequence command `name` resolves to, when it resolves to one.
pub open spec fn sequence_target(conf: XconfView, name: Seq<char>) -> Option<Seq<char>> {
    match resolve_spec(name, conf.aliases, MAX_ALIAS_DEPTH as nat) {
        Ok(n) => if conf.commands.contains_key(n) && conf.commands[n].kind is Sequence {
            Some(n)
        } else {
            None
        },
        Err(_) => None,
    }
}

/// `rank` orders the sequence commands so that every step of a sequence
/// that is itself a sequence ranks lower: no sequence reaches itself.
pub open spec fn ranked(conf: XconfView, rank: spec_fn(Seq<char>) -> nat) -> bool {
    forall|n: Seq<char>, j: int|
        #![trigger conf.commands[n].kind->Sequence_0[j]]
        conf.commands.contains_key(n) && conf.commands[n].kind is Sequence && 0 <= j
            < conf.commands[n].kind->Sequence_0.len() ==> match sequence_target(
            conf,
            conf.commands[n].kind->Sequence_0[j],
        ) {
            Some(m) => rank(m) < rank(n),
            None => true,
        }
}

/// How deep the run of `name` may nest sequences: one level more than the
/// rank of the sequence it names, none for any other command.
pub open spec fn depth_needed(conf: XconfView, rank: spec_fn(Seq<char>) -> nat, name: Seq<char>) -> nat {
    match sequence_target(conf, name) {
        Some(n) => rank(n) + 1,
        None => 0,
    }
}

proof fn lemma_name_ends(
    shell: ShellKind,
    opts: Opts,
    conf: XconfView,
    rank: spec_fn(Seq<char>) -> nat,
    name: Seq<char>,
    args: Seq<Seq<char>>,
    code: spec_fn(nat) -> int,
    k: nat,
    depth: nat,
)
    requires
        ranked(conf, rank),
        depth >= depth_needed(conf, rank, name),
    ensures
        name_outcome(shell, opts, conf, name, args, code, k, depth) is Some,
    decreases depth, 0int, 0int,
{
    match dispatch(shell, opts, conf, name, args, Seq::empty()).1 {
        ActionView::Continue => {
            let n = resolve_spec(name, conf.aliases, MAX_ALIAS_DEPTH as nat)->Ok_0;
            assert(sequence_target(conf, name) == Some(n));
            lemma_steps_end(shell, opts, conf, rank, n, 0, code, k, (depth - 1) as nat);
        },
        _ => {},
    }
}

proof fn lemma_steps_end(
    shell: ShellKind,
    opts: Opts,
    conf: XconfView,
    rank: spec_fn(Seq<char>) -> nat,
    n: Seq<char>,
    i: int,
    code: spec_fn(nat) -> int,
    k: nat,
    depth: nat,
)
    requires
        ranked(conf, rank),
        conf.commands.contains_key(n),
        conf.commands[n].kind is Sequence,
        depth >= rank(n),
        0 <= i <= conf.commands[n].kind->Sequence_0.len(),
    ensures
        steps_outcome(shell, opts, conf, conf.commands[n].kind->Sequence_0, i, code, k, depth) is Some,
    decreases depth, 1int, conf.commands[n].kind->Sequence_0.len() - i,
{
    let steps = conf.commands[n].kind->Sequence_0;
    if i < steps.len() {
        let s = steps[i];
        assert(match sequence_target(conf, s) {
            Some(m) => rank(m) < rank(n),
            None => true,
        });
        lemma_name_ends(shell, opts, conf, rank, s, Seq::empty(), code, k, depth);
        let o1 = name_outcome(shell, opts, conf, s, Seq::empty(), code, k, depth)->0;
        if o1.status == 0 {
            lemma_steps_end(shell, opts, conf, rank, n, i + 1, code, o1.next, depth);
        }
    }
}

/// Every run ends when no sequence reaches itself: for any ranking of the
/// sequence commands below their steps, running `name` nests sequences at
/// most `depth_needed` levels deep (at most the number of sequence
/// commands, for ranks below that number), and driving the runner from the
/// start of `name` performs the steps of that outcome and then finishes.
pub proof fn lemma_acyclic_runs_end(
    shell: ShellKind,
    opts: Opts,
    conf: XconfView,
    rank: spec_fn(Seq<char>) -> nat,
    name: Seq<char>,
    args: Seq<Seq<char>>,
    code: spec_fn(nat) -> int,
)
    requires
        ranked(conf, rank),
    ensures
        name_outcome(shell, opts, conf, name, args, code, 0, depth_needed(conf, rank, name)) is Some,
        ({
            let o = name_outcome(shell, opts, conf, name, args, code, 0, depth_needed(conf, rank, name))->0;
            let (f, a) = dispatch(shell, opts, conf, name, args, Seq::empty());
            run_trace(shell, opts, conf, f, a, code, 0, o.cost + 2) == Some(
                (o.steps, o.status, if o.status == 0 { Seq::empty() } else { o.errors }),
            )
        }),
{
    lemma_name_ends(shell, opts, conf, rank, name, args, code, 0, depth_needed(conf, rank, name));
    lemma_run_is_outcome(shell, opts, conf, name, args, code, depth_needed(conf, rank, name));
}

} // verus!
