//! Resolving, listing, showing and running commands.
use vstd::prelude::*;

use crate::config::{empty_conf, AliasView, Command, CommandKind, CommandView, KindView, Xconf};
use crate::text::{
    chars_of, check_name_chars, contains_exec, contains_seq, push_str, replace_all,
    replace_all_exec, all_name_chars, string_of,
};

verus! {

/// How many alias hops are followed before giving up.
pub const MAX_ALIAS_DEPTH: usize = 8;

// ---------------------------------------------------------------------------
// Aliases
// ---------------------------------------------------------------------------

/// Follows alias chains for at most `fuel` hops: the command name reached, or
/// the name at which the hops ran out.
pub open spec fn resolve_spec(
    name: Seq<char>,
    aliases: Map<Seq<char>, AliasView>,
    fuel: nat,
) -> Result<Seq<char>, Seq<char>>
    decreases fuel,
{
    if fuel == 0 {
        Err(name)
    } else if aliases.contains_key(name) {
        resolve_spec(aliases[name].target, aliases, (fuel - 1) as nat)
    } else {
        Ok(name)
    }
}

/// The message for an alias chain that is too long.
pub open spec fn alias_error(name: Seq<char>) -> Seq<char> {
    "alias chain too long (cycle?) at `"@ + name + "`"@
}

/// Follow alias chains until a real command name is found.
pub fn resolve(name: &str, conf: &Xconf) -> (r: Result<String, String>)
    ensures
        match resolve_spec(name@, conf@.aliases, MAX_ALIAS_DEPTH as nat) {
            Ok(n) => r matches Ok(s) && s@ == n,
            Err(n) => r matches Err(m) && m@ == alias_error(n),
        },
{
    let mut cur: String = name.to_owned();
    let mut i: usize = 0;
    while i < MAX_ALIAS_DEPTH
        invariant
            i <= MAX_ALIAS_DEPTH,
            resolve_spec(name@, conf@.aliases, MAX_ALIAS_DEPTH as nat) == resolve_spec(
                cur@,
                conf@.aliases,
                (MAX_ALIAS_DEPTH - i) as nat,
            ),
        decreases MAX_ALIAS_DEPTH - i,
    {
        match conf.aliases.get(cur.as_str()) {
            Some(alias) => {
                cur = alias.target.clone();
            },
            None => {
                return Ok(cur);
            },
        }
        i += 1;
    }
    let mut m = String::new();
    push_str(&mut m, "alias chain too long (cycle?) at `");
    push_str(&mut m, cur.as_str());
    push_str(&mut m, "`");
    Err(m)
}

proof fn lemma_cycle_fuel(aliases: Map<Seq<char>, AliasView>, a: Seq<char>, b: Seq<char>, n: nat)
    requires
        aliases.contains_key(a),
        aliases.contains_key(b),
        aliases[a].target == b,
        aliases[b].target == a,
    ensures
        resolve_spec(a, aliases, n) is Err,
        resolve_spec(b, aliases, n) is Err,
    decreases n,
{
    if n > 0 {
        lemma_cycle_fuel(aliases, a, b, (n - 1) as nat);
    }
}

/// Two aliases that name each other never resolve: the lookup stops with
/// the "alias chain too long" error.
pub proof fn lemma_alias_cycle_fails(aliases: Map<Seq<char>, AliasView>, a: Seq<char>, b: Seq<char>)
    requires
        aliases.contains_key(a),
        aliases.contains_key(b),
        aliases[a].target == b,
        aliases[b].target == a,
    ensures
        resolve_spec(a, aliases, MAX_ALIAS_DEPTH as nat) is Err,
{
    lemma_cycle_fuel(aliases, a, b, MAX_ALIAS_DEPTH as nat);
}

/// A name that is not an alias resolves to itself.
pub proof fn lemma_plain_name_resolves_to_itself(aliases: Map<Seq<char>, AliasView>, name: Seq<char>)
    requires
        !aliases.contains_key(name),
    ensures
        resolve_spec(name, aliases, MAX_ALIAS_DEPTH as nat) == Ok::<Seq<char>, Seq<char>>(name),
{
}

// ---------------------------------------------------------------------------
// Quoting and interpolation
// ---------------------------------------------------------------------------

/// Which shell runs the commands.
#[derive(Clone, Copy, Debug)]
pub enum ShellKind {
    /// `sh -c`
    Posix,
    /// `cmd /c`
    Cmd,
}

/// Characters that never need quoting.
pub open spec fn plain_chars() -> Seq<char> {
    "-._/:@=+%,"@
}

/// `arg` as one POSIX shell word: unchanged when it has only safe
/// characters, otherwise in single quotes with each `'` written `'\''`.
pub open spec fn escape_posix(arg: Seq<char>) -> Seq<char> {
    if arg.len() == 0 {
        "''"@
    } else if all_name_chars(arg, plain_chars()) {
        arg
    } else {
        "'"@ + replace_all(arg, "'"@, "'\\''"@) + "'"@
    }
}

/// `arg` as one `cmd` word: unchanged when it has only safe characters,
/// otherwise in double quotes with each `"` written `\"`.
pub open spec fn escape_cmd(arg: Seq<char>) -> Seq<char> {
    if arg.len() == 0 {
        "\"\""@
    } else if all_name_chars(arg, plain_chars()) {
        arg
    } else {
        "\""@ + replace_all(arg, "\""@, "\\\""@) + "\""@
    }
}

pub open spec fn escape_for(shell: ShellKind, arg: Seq<char>) -> Seq<char> {
    match shell {
        ShellKind::Posix => escape_posix(arg),
        ShellKind::Cmd => escape_cmd(arg),
    }
}

fn quoted(arg: &str, quote: &str, pat: &str, rep: &str) -> (s: String)
    requires
        pat@.len() > 0,
    ensures
        s@ == quote@ + replace_all(arg@, pat@, rep@) + quote@,
{
    let a = chars_of(arg);
    let p = chars_of(pat);
    let r = chars_of(rep);
    let body = replace_all_exec(&a, &p, &r);
    let b = string_of(&body);
    let mut s = String::new();
    push_str(&mut s, quote);
    push_str(&mut s, b.as_str());
    push_str(&mut s, quote);
    s
}

/// Quotes one argument for the given shell.
pub fn shell_escape_for(shell: ShellKind, arg: &str) -> (s: String)
    ensures
        s@ == escape_for(shell, arg@),
{
    let a = chars_of(arg);
    let plain = chars_of("-._/:@=+%,");
    match shell {
        ShellKind::Posix => {
            if a.len() == 0 {
                "''".to_owned()
            } else if check_name_chars(&a, &plain) {
                arg.to_owned()
            } else {
                proof {
                    reveal_strlit("'");
                }
                quoted(arg, "'", "'", "'\\''")
            }
        },
        ShellKind::Cmd => {
            if a.len() == 0 {
                "\"\"".to_owned()
            } else if check_name_chars(&a, &plain) {
                arg.to_owned()
            } else {
                proof {
                    reveal_strlit("\"");
                }
                quoted(arg, "\"", "\"", "\\\"")
            }
        },
    }
}

/// Quotes one argument for `sh`.
pub fn shell_escape(arg: &str) -> (s: String)
    ensures
        s@ == escape_posix(arg@),
{
    shell_escape_for(ShellKind::Posix, arg)
}

/// Quotes one argument for `cmd`.
pub fn shell_escape_cmd(arg: &str) -> (s: String)
    ensures
        s@ == escape_cmd(arg@),
{
    shell_escape_for(ShellKind::Cmd, arg)
}

/// The parts joined with `sep` between them.
pub open spec fn join(parts: Seq<Seq<char>>, sep: Seq<char>) -> Seq<char>
    decreases parts.len(),
{
    if parts.len() == 0 {
        Seq::empty()
    } else if parts.len() == 1 {
        parts[0]
    } else {
        join(parts.drop_last(), sep) + sep + parts.last()
    }
}

/// The arguments quoted for the shell, in order.
pub open spec fn escaped_args(shell: ShellKind, args: Seq<Seq<char>>) -> Seq<Seq<char>> {
    args.map_values(|a: Seq<char>| escape_for(shell, a))
}

/// The placeholder that extra arguments replace.
pub open spec fn placeholder() -> Seq<char> {
    "{{args}}"@
}

/// The command line: every `{{args}}` in the template replaced by the quoted
/// arguments, or, without a placeholder, the arguments appended after a space.
pub open spec fn interpolate_spec(shell: ShellKind, tpl: Seq<char>, args: Seq<Seq<char>>) -> Seq<
    char,
> {
    let joined = join(escaped_args(shell, args), " "@);
    if contains_seq(tpl, placeholder()) {
        replace_all(tpl, placeholder(), joined)
    } else if joined.len() == 0 {
        tpl
    } else {
        tpl + " "@ + joined
    }
}

/// Joins strings with a separator.
pub fn join_strings(parts: &Vec<String>, sep: &str) -> (s: String)
    ensures
        s@ == join(crate::text::string_views(parts@), sep@),
{
    let ghost pv = crate::text::string_views(parts@);
    let mut s = String::new();
    let mut i: usize = 0;
    assert(pv.take(0) =~= Seq::<Seq<char>>::empty());
    while i < parts.len()
        invariant
            i <= parts.len(),
            pv == crate::text::string_views(parts@),
            s@ == join(pv.take(i as int), sep@),
        decreases parts.len() - i,
    {
        if i > 0 {
            push_str(&mut s, sep);
        }
        push_str(&mut s, parts[i].as_str());
        proof {
            let t = pv.take(i + 1);
            assert(t.drop_last() =~= pv.take(i as int));
            if i == 0 {
                assert(pv.take(0) =~= Seq::<Seq<char>>::empty());
                assert(s@ =~= t[0]);
            }
        }
        i += 1;
    }
    assert(pv.take(parts.len() as int) =~= pv);
    s
}

/// Substitute `{{args}}` if present, otherwise append extra args (quoted for
/// the given shell).
pub fn interpolate_for(shell: ShellKind, tpl: &str, args: &Vec<String>) -> (s: String)
    ensures
        s@ == interpolate_spec(shell, tpl@, crate::text::string_views(args@)),
{
    let mut escaped: Vec<String> = Vec::new();
    let mut i: usize = 0;
    let ghost av = crate::text::string_views(args@);
    while i < args.len()
        invariant
            i <= args.len(),
            av == crate::text::string_views(args@),
            crate::text::string_views(escaped@) == escaped_args(shell, av).take(i as int),
        decreases args.len() - i,
    {
        let e = shell_escape_for(shell, args[i].as_str());
        let ghost before = crate::text::string_views(escaped@);
        escaped.push(e);
        assert(crate::text::string_views(escaped@) =~= before.push(escaped_args(shell, av)[i as int]));
        assert(escaped_args(shell, av).take(i + 1) =~= escaped_args(shell, av).take(i as int).push(
            escaped_args(shell, av)[i as int],
        ));
        i += 1;
    }
    assert(escaped_args(shell, av).take(args.len() as int) =~= escaped_args(shell, av));
    let joined = join_strings(&escaped, " ");
    let t = chars_of(tpl);
    let ph = chars_of("{{args}}");
    proof {
        reveal_strlit("{{args}}");
    }
    if contains_exec(&t, &ph) {
        let j = chars_of(joined.as_str());
        let r = replace_all_exec(&t, &ph, &j);
        string_of(&r)
    } else if joined.as_str().is_empty() {
        tpl.to_owned()
    } else {
        let mut s = tpl.to_owned();
        push_str(&mut s, " ");
        push_str(&mut s, joined.as_str());
        s
    }
}

/// Substitute `{{args}}` if present, otherwise append extra args (quoted
/// for `sh`).
pub fn interpolate(tpl: &str, args: &Vec<String>) -> (s: String)
    ensures
        s@ == interpolate_spec(ShellKind::Posix, tpl@, crate::text::string_views(args@)),
{
    interpolate_for(ShellKind::Posix, tpl, args)
}

// ---------------------------------------------------------------------------
// Shortening text for listings
// ---------------------------------------------------------------------------

/// Newlines turned into spaces.
pub open spec fn flatten_lines(s: Seq<char>) -> Seq<char> {
    s.map_values(|c: char| if c == '\n' { ' ' } else { c })
}

/// At most `max` characters: the text itself when it fits, otherwise its
/// first `max - 1` characters (none when `max` is 0) and `…`.
pub open spec fn truncate_spec(text: Seq<char>, max: nat) -> Seq<char> {
    let t = flatten_lines(text);
    if t.len() <= max {
        t
    } else {
        t.take(if max == 0 { 0 } else { max - 1 }) + seq!['…']
    }
}

/// With room for at least one character, the shortened text has at most
/// `max` characters, exactly `max` when it had to be cut, and no newline.
pub proof fn lemma_truncate_fits(text: Seq<char>, max: nat)
    requires
        max >= 1,
    ensures
        truncate_spec(text, max).len() <= max,
        flatten_lines(text).len() > max ==> truncate_spec(text, max).len() == max,
        !truncate_spec(text, max).contains('\n'),
{
    let t = flatten_lines(text);
    let r = truncate_spec(text, max);
    assert forall|i: int| 0 <= i < r.len() implies r[i] != '\n' by {
        if t.len() > max && i == r.len() - 1 {
        } else {
            assert(r[i] == t[i]);
        }
    }
}

/// Shortens text to at most `max` characters, newlines as spaces.
pub fn truncate(text: &str, max: usize) -> (s: String)
    ensures
        s@ == truncate_spec(text@, max as nat),
{
    let v = chars_of(text);
    let mut t: Vec<char> = Vec::new();
    let mut i: usize = 0;
    while i < v.len()
        invariant
            i <= v.len(),
            t@ == flatten_lines(v@).take(i as int),
        decreases v.len() - i,
    {
        let c = v[i];
        t.push(if c == '\n' { ' ' } else { c });
        assert(t@ =~= flatten_lines(v@).take(i + 1));
        i += 1;
    }
    assert(flatten_lines(v@).take(v.len() as int) =~= flatten_lines(v@));
    if t.len() <= max {
        string_of(&t)
    } else {
        let keep = if max == 0 { 0 } else { max - 1 };
        let mut cut = crate::text::slice_chars(&t, 0, keep);
        cut.push('…');
        assert(cut@ =~= flatten_lines(v@).take(keep as int) + seq!['…']);
        string_of(&cut)
    }
}

// ---------------------------------------------------------------------------
// Listing and showing
// ---------------------------------------------------------------------------

/// The length of the text in UTF-8 bytes, as `str::len` reports it.
pub open spec fn byte_len(s: Seq<char>) -> nat {
    (vstd::utf8::encode_utf8(s).len() as usize) as nat
}

/// The widest name, in bytes.
pub open spec fn max_width(names: Seq<Seq<char>>) -> nat
    decreases names.len(),
{
    if names.len() == 0 {
        0
    } else {
        let w = max_width(names.drop_last());
        if byte_len(names.last()) > w {
            byte_len(names.last())
        } else {
            w
        }
    }
}

/// `s` padded with spaces to `width` characters (`{:<width$}`).
pub open spec fn pad(s: Seq<char>, width: nat) -> Seq<char> {
    if s.len() >= width {
        s
    } else {
        s + Seq::new((width - s.len()) as nat, |i: int| ' ')
    }
}

/// What the listing says of a command: its description, else a shortened
/// command line, else its steps.
pub open spec fn detail(c: CommandView) -> Seq<char> {
    match c.desc {
        Some(d) => d,
        None => match c.kind {
            KindView::Shell(cmd) => truncate_spec(cmd, 60),
            KindView::Sequence(steps) => "seq: "@ + join(steps, ", "@),
        },
    }
}

pub open spec fn command_entry(name: Seq<char>, c: CommandView, width: nat) -> Seq<char> {
    "  "@ + pad(name, width) + "  "@ + detail(c) + "  ("@ + c.source + ")"@
}

pub open spec fn alias_entry(name: Seq<char>, a: AliasView, width: nat) -> Seq<char> {
    "  "@ + pad(name, width) + "  -> "@ + a.target + "  ("@ + a.source + ")"@
}

/// The listing shown when nothing is defined.
pub open spec fn empty_listing() -> Seq<Seq<char>> {
    seq![
        "no commands defined"@,
        ""@,
        "define commands in ~/.x.toml, ./x.toml, or [package.metadata.x] in Cargo.toml,"@,
        "or run `x --init` to create an example x.toml"@,
    ]
}

/// The listing: a heading, then every command and every alias in name
/// order, names padded to the widest.
pub open spec fn listing(conf: Xconf) -> Seq<Seq<char>> {
    if conf@ == empty_conf() {
        empty_listing()
    } else {
        let ck = conf.commands.key_seq();
        let ak = conf.aliases.key_seq();
        let w = max_width(ck + ak);
        seq!["available commands:"@] + Seq::new(
            ck.len(),
            |i: int| command_entry(ck[i], conf@.commands[ck[i]], w),
        ) + Seq::new(ak.len(), |i: int| alias_entry(ak[i], conf@.aliases[ak[i]], w))
    }
}

fn pad_exec(s: &str, width: usize) -> (r: String)
    ensures
        r@ == pad(s@, width as nat),
{
    let v = chars_of(s);
    let mut out = chars_of(s);
    if v.len() < width {
        let mut k: usize = v.len();
        while k < width
            invariant
                v.len() <= k <= width,
                out@ == v@ + Seq::new((k - v.len()) as nat, |i: int| ' '),
            decreases width - k,
        {
            out.push(' ');
            k += 1;
            assert(out@ =~= v@ + Seq::new((k - v.len()) as nat, |i: int| ' '));
        }
    } else {
        assert(out@ == v@);
    }
    string_of(&out)
}

fn detail_exec(c: &Command) -> (d: String)
    ensures
        d@ == detail(c@),
{
    match &c.desc {
        Some(desc) => desc.clone(),
        None => match &c.kind {
            CommandKind::Shell(cmd) => truncate(cmd.as_str(), 60),
            CommandKind::Sequence(steps) => {
                let mut d = String::new();
                push_str(&mut d, "seq: ");
                let j = join_strings(steps, ", ");
                push_str(&mut d, j.as_str());
                d
            },
        },
    }
}

fn entry_exec(name: &str, width: usize, middle: &str, detail: &str, source: &str) -> (r: String)
    ensures
        r@ == "  "@ + pad(name@, width as nat) + middle@ + detail@ + "  ("@ + source@ + ")"@,
{
    let mut r = String::new();
    push_str(&mut r, "  ");
    let p = pad_exec(name, width);
    push_str(&mut r, p.as_str());
    push_str(&mut r, middle);
    push_str(&mut r, detail);
    push_str(&mut r, "  (");
    push_str(&mut r, source);
    push_str(&mut r, ")");
    r
}

fn max_width_exec(conf: &Xconf) -> (w: usize)
    ensures
        w as nat == max_width(conf.commands.key_seq() + conf.aliases.key_seq()),
{
    let nc = conf.commands.len();
    let na = conf.aliases.len();
    let ghost ck = conf.commands.key_seq();
    let ghost ak = conf.aliases.key_seq();
    let ghost all = ck + ak;
    let mut width: usize = 0;
    let mut i: usize = 0;
    assert(all.take(0) =~= Seq::<Seq<char>>::empty());
    while i < nc
        invariant
            i <= nc,
            nc == ck.len(),
            all == ck + ak,
            ck == conf.commands.key_seq(),
            width as nat == max_width(all.take(i as int)),
        decreases nc - i,
    {
        let k = conf.commands.key_at(i);
        assert(k@ == all[i as int]);
        let b = k.as_str().len();
        assert(all.take(i + 1).drop_last() =~= all.take(i as int));
        assert(all.take(i + 1).last() == all[i as int]);
        if b > width {
            width = b;
        }
        i += 1;
    }
    let mut j: usize = 0;
    while j < na
        invariant
            j <= na,
            nc == ck.len(),
            na == ak.len(),
            all == ck + ak,
            ak == conf.aliases.key_seq(),
            width as nat == max_width(all.take(nc + j)),
        decreases na - j,
    {
        let k = conf.aliases.key_at(j);
        assert(k@ == all[nc + j]);
        let b = k.as_str().len();
        assert(all.take(nc + j + 1).drop_last() =~= all.take(nc + j));
        assert(all.take(nc + j + 1).last() == all[nc + j]);
        if b > width {
            width = b;
        }
        j += 1;
    }
    assert(all.take(nc + na) =~= all);
    width
}

fn command_entries(conf: &Xconf, width: usize) -> (lines: Vec<String>)
    ensures
        crate::text::string_views(lines@) == Seq::new(
            conf.commands.key_seq().len(),
            |i: int|
                command_entry(
                    conf.commands.key_seq()[i],
                    conf@.commands[conf.commands.key_seq()[i]],
                    width as nat,
                ),
        ),
{
    let nc = conf.commands.len();
    let ghost ck = conf.commands.key_seq();
    let ghost cl = Seq::new(ck.len(), |i: int| command_entry(ck[i], conf@.commands[ck[i]], width as nat));
    let mut out: Vec<String> = Vec::new();
    let mut i: usize = 0;
    assert(cl.take(0) =~= Seq::<Seq<char>>::empty());
    while i < nc
        invariant
            i <= nc,
            nc == ck.len(),
            ck == conf.commands.key_seq(),
            conf.commands@.dom() == ck.to_set(),
            cl == Seq::new(ck.len(), |i: int| command_entry(ck[i], conf@.commands[ck[i]], width as nat)),
            crate::text::string_views(out@) == cl.take(i as int),
        decreases nc - i,
    {
        let name = conf.commands.key_at(i);
        let command = conf.commands.value_at(i);
        let d = detail_exec(command);
        let line = entry_exec(name.as_str(), width, "  ", d.as_str(), command.source.as_str());
        let ghost before = crate::text::string_views(out@);
        out.push(line);
        assert(ck.contains(ck[i as int]));
        assert(conf.commands@.contains_key(ck[i as int]));
        assert(conf@.commands[ck[i as int]] == command@);
        assert(crate::text::string_views(out@) =~= before.push(cl[i as int]));
        assert(cl.take(i + 1) =~= cl.take(i as int).push(cl[i as int]));
        i += 1;
    }
    assert(cl.take(nc as int) =~= cl);
    out
}

fn alias_entries(conf: &Xconf, width: usize) -> (lines: Vec<String>)
    ensures
        crate::text::string_views(lines@) == Seq::new(
            conf.aliases.key_seq().len(),
            |i: int|
                alias_entry(
                    conf.aliases.key_seq()[i],
                    conf@.aliases[conf.aliases.key_seq()[i]],
                    width as nat,
                ),
        ),
{
    let na = conf.aliases.len();
    let ghost ak = conf.aliases.key_seq();
    let ghost al = Seq::new(ak.len(), |i: int| alias_entry(ak[i], conf@.aliases[ak[i]], width as nat));
    let mut out: Vec<String> = Vec::new();
    let mut i: usize = 0;
    assert(al.take(0) =~= Seq::<Seq<char>>::empty());
    while i < na
        invariant
            i <= na,
            na == ak.len(),
            ak == conf.aliases.key_seq(),
            conf.aliases@.dom() == ak.to_set(),
            al == Seq::new(ak.len(), |i: int| alias_entry(ak[i], conf@.aliases[ak[i]], width as nat)),
            crate::text::string_views(out@) == al.take(i as int),
        decreases na - i,
    {
        let name = conf.aliases.key_at(i);
        let alias = conf.aliases.value_at(i);
        let line = entry_exec(name.as_str(), width, "  -> ", alias.target.as_str(), alias.source.as_str());
        let ghost before = crate::text::string_views(out@);
        out.push(line);
        assert(ak.contains(ak[i as int]));
        assert(conf.aliases@.contains_key(ak[i as int]));
        assert(conf@.aliases[ak[i as int]] == alias@);
        assert(crate::text::string_views(out@) =~= before.push(al[i as int]));
        assert(al.take(i + 1) =~= al.take(i as int).push(al[i as int]));
        i += 1;
    }
    assert(al.take(na as int) =~= al);
    out
}

/// The lines `x --list` prints.
pub fn list_lines(conf: &Xconf) -> (lines: Vec<String>)
    ensures
        crate::text::string_views(lines@) == listing(*conf),
{
    let mut out: Vec<String> = Vec::new();
    if conf.is_empty() {
        out.push("no commands defined".to_owned());
        out.push("".to_owned());
        out.push(
            "define commands in ~/.x.toml, ./x.toml, or [package.metadata.x] in Cargo.toml,".to_owned(),
        );
        out.push("or run `x --init` to create an example x.toml".to_owned());
        assert(crate::text::string_views(out@) =~= empty_listing());
        return out;
    }
    let width = max_width_exec(conf);
    out.push("available commands:".to_owned());
    let mut cl = command_entries(conf, width);
    let mut al = alias_entries(conf, width);
    let ghost h = crate::text::string_views(out@);
    let ghost c = crate::text::string_views(cl@);
    let ghost a = crate::text::string_views(al@);
    let ghost o0 = out@;
    let ghost c0 = cl@;
    let ghost a0 = al@;
    out.append(&mut cl);
    out.append(&mut al);
    assert(out@ =~= o0 + c0 + a0);
    assert(crate::text::string_views(out@) =~= h + c + a);
    out
}

/// The names completion offers: every command, then every alias, each in
/// name order.
pub fn command_names(conf: &Xconf) -> (names: Vec<String>)
    ensures
        crate::text::string_views(names@) == conf.commands.key_seq() + conf.aliases.key_seq(),
        crate::text::strictly_sorted(conf.commands.key_seq()),
        crate::text::strictly_sorted(conf.aliases.key_seq()),
        conf.commands@.dom() == conf.commands.key_seq().to_set(),
        conf.aliases@.dom() == conf.aliases.key_seq().to_set(),
{
    // The maps' `len` contracts carry the order and uniqueness of their names.
    let _ = conf.commands.len();
    let _ = conf.aliases.len();
    let mut out = keys_of_commands(conf);
    let mut more = keys_of_aliases(conf);
    let ghost o0 = out@;
    let ghost m0 = more@;
    out.append(&mut more);
    assert(out@ =~= o0 + m0);
    assert(crate::text::string_views(out@) =~= crate::text::string_views(o0)
        + crate::text::string_views(m0));
    out
}

fn keys_of_commands(conf: &Xconf) -> (names: Vec<String>)
    ensures
        crate::text::string_views(names@) == conf.commands.key_seq(),
{
    let n = conf.commands.len();
    let ghost ks = conf.commands.key_seq();
    let mut out: Vec<String> = Vec::new();
    let mut i: usize = 0;
    assert(ks.take(0) =~= Seq::<Seq<char>>::empty());
    while i < n
        invariant
            i <= n,
            n == ks.len(),
            ks == conf.commands.key_seq(),
            crate::text::string_views(out@) == ks.take(i as int),
        decreases n - i,
    {
        let ghost before = crate::text::string_views(out@);
        out.push(conf.commands.key_at(i).clone());
        assert(crate::text::string_views(out@) =~= before.push(ks[i as int]));
        assert(ks.take(i + 1) =~= ks.take(i as int).push(ks[i as int]));
        i += 1;
    }
    assert(ks.take(n as int) =~= ks);
    out
}

fn keys_of_aliases(conf: &Xconf) -> (names: Vec<String>)
    ensures
        crate::text::string_views(names@) == conf.aliases.key_seq(),
{
    let n = conf.aliases.len();
    let ghost ks = conf.aliases.key_seq();
    let mut out: Vec<String> = Vec::new();
    let mut i: usize = 0;
    assert(ks.take(0) =~= Seq::<Seq<char>>::empty());
    while i < n
        invariant
            i <= n,
            n == ks.len(),
            ks == conf.aliases.key_seq(),
            crate::text::string_views(out@) == ks.take(i as int),
        decreases n - i,
    {
        let ghost before = crate::text::string_views(out@);
        out.push(conf.aliases.key_at(i).clone());
        assert(crate::text::string_views(out@) =~= before.push(ks[i as int]));
        assert(ks.take(i + 1) =~= ks.take(i as int).push(ks[i as int]));
        i += 1;
    }
    assert(ks.take(n as int) =~= ks);
    out
}

/// The message for a name that is not a command.
pub open spec fn missing_error(name: Seq<char>) -> Seq<char> {
    "no such command <"@ + name + ">"@
}

/// What `x --show` prints of a command: its name and source, description,
/// command line or steps, working directory, environment in name order, and
/// whether it asks first; or the error for a name that does not resolve.
pub open spec fn showing(name: Seq<char>, conf: Xconf) -> Result<Seq<Seq<char>>, Seq<char>> {
    match resolve_spec(name, conf@.aliases, MAX_ALIAS_DEPTH as nat) {
        Err(n) => Err(alias_error(n)),
        Ok(n) => if !conf@.commands.contains_key(n) {
            Err(missing_error(n))
        } else {
            let c = conf@.commands[n];
            let env = conf.commands@[n].env;
            let ks = env.key_seq();
            Ok(
                seq!["name:    "@ + n, "source:  "@ + c.source] + match c.desc {
                    Some(d) => seq!["desc:    "@ + d],
                    None => Seq::empty(),
                } + match c.kind {
                    KindView::Shell(cmd) => seq!["cmd:     "@ + cmd],
                    KindView::Sequence(steps) => seq!["seq:     "@ + join(steps, ", "@)],
                } + match c.cwd {
                    Some(d) => seq!["cwd:     "@ + d],
                    None => Seq::empty(),
                } + Seq::new(ks.len(), |i: int| "env:     "@ + ks[i] + "="@ + env@[ks[i]]@)
                    + if c.confirm {
                    seq!["confirm: true"@]
                } else {
                    Seq::empty()
                },
            )
        },
    }
}

fn concat2(a: &str, b: &str) -> (s: String)
    ensures
        s@ == a@ + b@,
{
    let mut s = String::new();
    push_str(&mut s, a);
    push_str(&mut s, b);
    assert(s@ =~= a@ + b@);
    s
}

fn env_lines(env: &crate::name_map::NameMap<String>) -> (lines: Vec<String>)
    ensures
        crate::text::string_views(lines@) == Seq::new(
            env.key_seq().len(),
            |i: int| "env:     "@ + env.key_seq()[i] + "="@ + env@[env.key_seq()[i]]@,
        ),
{
    let n = env.len();
    let ghost ks = env.key_seq();
    let ghost want = Seq::new(ks.len(), |i: int| "env:     "@ + ks[i] + "="@ + env@[ks[i]]@);
    let mut out: Vec<String> = Vec::new();
    let mut i: usize = 0;
    assert(want.take(0) =~= Seq::<Seq<char>>::empty());
    while i < n
        invariant
            i <= n,
            n == ks.len(),
            ks == env.key_seq(),
            want == Seq::new(ks.len(), |i: int| "env:     "@ + ks[i] + "="@ + env@[ks[i]]@),
            crate::text::string_views(out@) == want.take(i as int),
        decreases n - i,
    {
        let k = env.key_at(i);
        let v = env.value_at(i);
        let mut line = concat2("env:     ", k.as_str());
        push_str(&mut line, "=");
        push_str(&mut line, v.as_str());
        let ghost before = crate::text::string_views(out@);
        out.push(line);
        assert(crate::text::string_views(out@) =~= before.push(want[i as int]));
        assert(want.take(i + 1) =~= want.take(i as int).push(want[i as int]));
        i += 1;
    }
    assert(want.take(n as int) =~= want);
    out
}

/// The lines `x --show` prints, or the error message.
pub fn show_lines(name: &str, conf: &Xconf) -> (r: Result<Vec<String>, String>)
    ensures
        match showing(name@, *conf) {
            Ok(ls) => r matches Ok(v) && crate::text::string_views(v@) == ls,
            Err(m) => r matches Err(e) && e@ == m,
        },
{
    let n = match resolve(name, conf) {
        Ok(n) => n,
        Err(e) => {
            return Err(e);
        },
    };
    let command = match conf.commands.get(n.as_str()) {
        None => {
            let mut m = concat2("no such command <", n.as_str());
            push_str(&mut m, ">");
            return Err(m);
        },
        Some(c) => c,
    };
    let mut out: Vec<String> = Vec::new();
    out.push(concat2("name:    ", n.as_str()));
    out.push(concat2("source:  ", command.source.as_str()));
    let ghost l1 = crate::text::string_views(out@);
    if let Some(d) = &command.desc {
        out.push(concat2("desc:    ", d.as_str()));
    }
    let ghost l2 = crate::text::string_views(out@);
    match &command.kind {
        CommandKind::Shell(cmd) => out.push(concat2("cmd:     ", cmd.as_str())),
        CommandKind::Sequence(steps) => {
            let j = join_strings(steps, ", ");
            out.push(concat2("seq:     ", j.as_str()));
        },
    }
    let ghost l3 = crate::text::string_views(out@);
    if let Some(d) = &command.cwd {
        out.push(concat2("cwd:     ", d.as_str()));
    }
    let ghost l4 = crate::text::string_views(out@);
    let mut env = env_lines(&command.env);
    let ghost o0 = out@;
    let ghost e0 = env@;
    out.append(&mut env);
    assert(out@ =~= o0 + e0);
    let ghost l5 = crate::text::string_views(out@);
    assert(l5 =~= l4 + crate::text::string_views(e0));
    if command.confirm {
        out.push("confirm: true".to_owned());
    }
    proof {
        let c = conf@.commands[n@];
        assert(c == command@);
        let want = showing(name@, *conf)->Ok_0;
        assert(crate::text::string_views(out@) =~= want);
    }
    Ok(out)
}

/// An answer that approves: `y` or `yes` in any case, around whitespace.
pub open spec fn confirms(line: Seq<char>) -> bool {
    let t = crate::text::trim(line);
    (t.len() == 1 && (t[0] == 'y' || t[0] == 'Y')) || (t.len() == 3 && (t[0] == 'y' || t[0]
        == 'Y') && (t[1] == 'e' || t[1] == 'E') && (t[2] == 's' || t[2] == 'S'))
}

/// Whether an answer to a confirmation question approves.
pub fn is_confirmation(line: &str) -> (b: bool)
    ensures
        b == confirms(line@),
{
    let v = chars_of(line);
    let t = crate::text::trim_chars(&v);
    (t.len() == 1 && (t[0] == 'y' || t[0] == 'Y')) || (t.len() == 3 && (t[0] == 'y' || t[0]
        == 'Y') && (t[1] == 'e' || t[1] == 'E') && (t[2] == 's' || t[2] == 'S'))
}

// ---------------------------------------------------------------------------
// Running
// ---------------------------------------------------------------------------

/// How commands are run.
#[derive(Debug, Default, Clone, Copy)]
pub struct Opts {
    /// Print the expanded command instead of running it.
    pub dry_run: bool,
    /// Do not echo the command before running it.
    pub quiet: bool,
}

/// A shell command to run, and how.
pub struct ShellStep {
    /// The command's name, aliases resolved.
    pub name: String,
    /// The command line, arguments filled in.
    pub command_line: String,
    /// Print the command line instead of running it; this counts as success.
    pub print_only: bool,
    /// Ask before running; on a refusal, call `decline` instead of running.
    pub ask: bool,
    /// Echo the command line before running it.
    pub echo: bool,
}

/// What to do next.
pub enum Action {
    /// Run a shell command, then `resume` with its exit status.
    Run(ShellStep),
    /// A sequence was entered: call `advance`.
    Continue,
    /// Stop with this exit status, after printing the messages.
    Finish { code: i32, errors: Vec<String> },
}

pub struct StepView {
    pub name: Seq<char>,
    pub command_line: Seq<char>,
    pub print_only: bool,
    pub ask: bool,
    pub echo: bool,
}

pub enum ActionView {
    Run(StepView),
    Continue,
    Finish(int, Seq<Seq<char>>),
}

impl View for ShellStep {
    type V = StepView;

    open spec fn view(&self) -> StepView {
        StepView {
            name: self.name@,
            command_line: self.command_line@,
            print_only: self.print_only,
            ask: self.ask,
            echo: self.echo,
        }
    }
}

impl View for Action {
    type V = ActionView;

    open spec fn view(&self) -> ActionView {
        match self {
            Action::Run(s) => ActionView::Run(s@),
            Action::Continue => ActionView::Continue,
            Action::Finish { code, errors } => ActionView::Finish(
                *code as int,
                crate::text::string_views(errors@),
            ),
        }
    }
}

/// A sequence being run: its steps and the index of the next one.
pub struct FrameView {
    pub steps: Seq<Seq<char>>,
    pub next: nat,
}

/// The messages for a name that is not a command.
pub open spec fn missing_errors(name: Seq<char>, conf: crate::config::XconfView) -> Seq<Seq<char>> {
    seq![missing_error(name)] + if conf == empty_conf() {
        Seq::empty()
    } else {
        seq!["run `x --list` to see available commands"@]
    }
}

/// The message for arguments given to a sequence.
pub open spec fn sequence_args_error(name: Seq<char>) -> Seq<char> {
    "command <"@ + name + "> is a sequence; extra arguments are not supported"@
}

/// Starting a command: resolve aliases; a shell command is run with the
/// arguments filled in; a sequence (which takes no arguments) is entered.
pub open spec fn dispatch(
    shell: ShellKind,
    opts: Opts,
    conf: crate::config::XconfView,
    name: Seq<char>,
    args: Seq<Seq<char>>,
    frames: Seq<FrameView>,
) -> (Seq<FrameView>, ActionView) {
    match resolve_spec(name, conf.aliases, MAX_ALIAS_DEPTH as nat) {
        Err(n) => (frames, ActionView::Finish(1, seq![alias_error(n)])),
        Ok(n) => if !conf.commands.contains_key(n) {
            (frames, ActionView::Finish(1, missing_errors(n, conf)))
        } else {
            match conf.commands[n].kind {
                KindView::Shell(tpl) => (
                    frames,
                    ActionView::Run(
                        StepView {
                            name: n,
                            command_line: interpolate_spec(shell, tpl, args),
                            print_only: opts.dry_run,
                            ask: !opts.dry_run && conf.commands[n].confirm,
                            echo: !opts.dry_run && !opts.quiet,
                        },
                    ),
                ),
                KindView::Sequence(steps) => if args.len() > 0 {
                    (frames, ActionView::Finish(1, seq![sequence_args_error(n)]))
                } else {
                    (frames.push(FrameView { steps: steps, next: 0 }), ActionView::Continue)
                },
            }
        },
    }
}

/// The frames with finished sequences removed from the top.
pub open spec fn pop_done(frames: Seq<FrameView>) -> Seq<FrameView>
    decreases frames.len(),
{
    if frames.len() > 0 && frames.last().next >= frames.last().steps.len() {
        pop_done(frames.drop_last())
    } else {
        frames
    }
}

/// The next step of the innermost unfinished sequence, or success when all
/// are done.
pub open spec fn advance_spec(
    shell: ShellKind,
    opts: Opts,
    conf: crate::config::XconfView,
    frames: Seq<FrameView>,
) -> (Seq<FrameView>, ActionView) {
    let fs = pop_done(frames);
    if fs.len() == 0 {
        (fs, ActionView::Finish(0, Seq::empty()))
    } else {
        let top = fs.last();
        dispatch(
            shell,
            opts,
            conf,
            top.steps[top.next as int],
            Seq::empty(),
            fs.update(fs.len() - 1, FrameView { steps: top.steps, next: top.next + 1 }),
        )
    }
}

/// After a shell command exits: a failure stops everything with its status;
/// success goes on with the next step.
pub open spec fn resume_spec(
    shell: ShellKind,
    opts: Opts,
    conf: crate::config::XconfView,
    frames: Seq<FrameView>,
    code: int,
) -> (Seq<FrameView>, ActionView) {
    if code != 0 {
        (frames, ActionView::Finish(code, Seq::empty()))
    } else {
        advance_spec(shell, opts, conf, frames)
    }
}

/// When the user declines a step that asks first: the run stops with
/// status 1 and the message `aborted`.
pub open spec fn decline_spec(frames: Seq<FrameView>) -> (Seq<FrameView>, ActionView) {
    (frames, ActionView::Finish(1, seq!["aborted"@]))
}

struct Frame {
    steps: Vec<String>,
    next: usize,
}

/// The state of a run: the sequences being worked through, innermost last.
pub struct Runner {
    shell: ShellKind,
    opts: Opts,
    frames: Vec<Frame>,
}

impl Runner {
    pub closed spec fn frames_view(&self) -> Seq<FrameView> {
        self.frames@.map_values(
            |f: Frame| FrameView { steps: crate::text::string_views(f.steps@), next: f.next as nat },
        )
    }

    pub closed spec fn shell(&self) -> ShellKind {
        self.shell
    }

    pub closed spec fn opts(&self) -> Opts {
        self.opts
    }

    fn copy_strings(v: &Vec<String>) -> (r: Vec<String>)
        ensures
            crate::text::string_views(r@) == crate::text::string_views(v@),
    {
        let mut out: Vec<String> = Vec::new();
        let mut i: usize = 0;
        while i < v.len()
            invariant
                i <= v.len(),
                crate::text::string_views(out@) == crate::text::string_views(v@).take(i as int),
            decreases v.len() - i,
        {
            let ghost before = crate::text::string_views(out@);
            out.push(v[i].clone());
            assert(crate::text::string_views(out@) =~= before.push(v@[i as int]@));
            assert(crate::text::string_views(v@).take(i + 1) =~= crate::text::string_views(v@).take(
                i as int,
            ).push(v@[i as int]@));
            i += 1;
        }
        assert(crate::text::string_views(v@).take(v.len() as int) =~= crate::text::string_views(
            v@,
        ));
        out
    }

    fn finish1(msg: String) -> (a: Action)
        ensures
            a@ == ActionView::Finish(1, seq![msg@]),
    {
        let mut errors: Vec<String> = Vec::new();
        errors.push(msg);
        assert(crate::text::string_views(errors@) =~= seq![msg@]);
        Action::Finish { code: 1, errors }
    }

    /// Starts `name` with `args` (or enters it, when it is a sequence).
    fn dispatch(&mut self, name: &str, args: &Vec<String>, conf: &Xconf) -> (a: Action)
        ensures
            (final(self).frames_view(), a@) == dispatch(
                old(self).shell(),
                old(self).opts(),
                conf@,
                name@,
                crate::text::string_views(args@),
                old(self).frames_view(),
            ),
            final(self).shell() == old(self).shell(),
            final(self).opts() == old(self).opts(),
    {
        let n = match resolve(name, conf) {
            Ok(n) => n,
            Err(e) => {
                return Self::finish1(e);
            },
        };
        let command = match conf.commands.get(n.as_str()) {
            None => {
                let mut m = concat2("no such command <", n.as_str());
                push_str(&mut m, ">");
                let mut errors: Vec<String> = Vec::new();
                errors.push(m);
                if !conf.is_empty() {
                    errors.push("run `x --list` to see available commands".to_owned());
                }
                let ghost ev = crate::text::string_views(errors@);
                assert(ev =~= missing_errors(n@, conf@));
                return Action::Finish { code: 1, errors };
            },
            Some(c) => c,
        };
        assert(conf@.commands[n@] == command@);
        match &command.kind {
            CommandKind::Shell(tpl) => {
                let line = interpolate_for(self.shell, tpl.as_str(), args);
                let dry = self.opts.dry_run;
                Action::Run(
                    ShellStep {
                        name: n,
                        command_line: line,
                        print_only: dry,
                        ask: !dry && command.confirm,
                        echo: !dry && !self.opts.quiet,
                    },
                )
            },
            CommandKind::Sequence(steps) => {
                if args.len() > 0 {
                    let mut m = concat2("command <", n.as_str());
                    push_str(&mut m, "> is a sequence; extra arguments are not supported");
                    return Self::finish1(m);
                }
                let frame = Frame { steps: Self::copy_strings(steps), next: 0 };
                let ghost before = self.frames_view();
                self.frames.push(frame);
                assert(self.frames_view() =~= before.push(
                    FrameView { steps: crate::text::string_views(steps@), next: 0 },
                ));
                Action::Continue
            },
        }
    }

    /// Starts running `name` with `args`.
    pub fn start(shell: ShellKind, opts: Opts, name: &str, args: &Vec<String>, conf: &Xconf) -> (r: (
        Runner,
        Action,
    ))
        ensures
            r.0.shell() == shell,
            r.0.opts() == opts,
            (r.0.frames_view(), r.1@) == dispatch(
                shell,
                opts,
                conf@,
                name@,
                crate::text::string_views(args@),
                Seq::empty(),
            ),
    {
        let mut runner = Runner { shell, opts, frames: Vec::new() };
        assert(runner.frames_view() =~= Seq::<FrameView>::empty());
        let a = runner.dispatch(name, args, conf);
        (runner, a)
    }

    /// The innermost sequence has no steps left.
    fn top_done(&self) -> (b: bool)
        ensures
            b == (self.frames_view().len() > 0 && self.frames_view().last().next
                >= self.frames_view().last().steps.len()),
    {
        let n = self.frames.len();
        if n == 0 {
            return false;
        }
        let top = &self.frames[n - 1];
        top.next >= top.steps.len()
    }

    /// Takes the next step of the innermost unfinished sequence.
    pub fn advance(&mut self, conf: &Xconf) -> (a: Action)
        ensures
            (final(self).frames_view(), a@) == advance_spec(
                old(self).shell(),
                old(self).opts(),
                conf@,
                old(self).frames_view(),
            ),
            final(self).shell() == old(self).shell(),
            final(self).opts() == old(self).opts(),
    {
        let ghost f0 = self.frames_view();
        assert(pop_done(f0) == pop_done(self.frames_view()));
        while self.top_done()
            invariant
                pop_done(f0) == pop_done(self.frames_view()),
                self.shell == old(self).shell,
                self.opts == old(self).opts,
            decreases self.frames.len(),
        {
            let ghost before = self.frames_view();
            self.frames.pop();
            assert(self.frames_view() =~= before.drop_last());
        }
        let len = self.frames.len();
        if len == 0 {
            let errors: Vec<String> = Vec::new();
            assert(crate::text::string_views(errors@) =~= Seq::<Seq<char>>::empty());
            return Action::Finish { code: 0, errors };
        }
        let ghost fs = self.frames_view();
        assert(fs.last().next < fs.last().steps.len());
        let ghost last = self.frames@.last();
        assert(fs.last().next == last.next);
        assert(fs.last().steps.len() == last.steps@.len());
        let mut top = self.frames.pop().unwrap();
        assert(top == last);
        let step = top.steps[top.next].clone();
        assert(top.next < top.steps.len());
        top.next = top.next + 1;
        self.frames.push(top);
        assert(self.frames_view() =~= fs.update(
            fs.len() - 1,
            FrameView { steps: fs.last().steps, next: fs.last().next + 1 },
        ));
        let no_args: Vec<String> = Vec::new();
        assert(crate::text::string_views(no_args@) =~= Seq::<Seq<char>>::empty());
        self.dispatch(step.as_str(), &no_args, conf)
    }

    /// Stops the run after the user declined the step that asked first.
    pub fn decline(&mut self) -> (a: Action)
        ensures
            (final(self).frames_view(), a@) == decline_spec(old(self).frames_view()),
            final(self).shell() == old(self).shell(),
            final(self).opts() == old(self).opts(),
    {
        Self::finish1("aborted".to_owned())
    }

    /// Goes on after a shell command exited with `code`.
    pub fn resume(&mut self, code: i32, conf: &Xconf) -> (a: Action)
        ensures
            (final(self).frames_view(), a@) == resume_spec(
                old(self).shell(),
                old(self).opts(),
                conf@,
                old(self).frames_view(),
                code as int,
            ),
            final(self).shell() == old(self).shell(),
            final(self).opts() == old(self).opts(),
    {
        if code != 0 {
            let errors: Vec<String> = Vec::new();
            assert(crate::text::string_views(errors@) =~= Seq::<Seq<char>>::empty());
            return Action::Finish { code, errors };
        }
        self.advance(conf)
    }
}

} // verus!
