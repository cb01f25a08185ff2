//! How a POSIX shell reads back a quoted argument, and how arguments are
//! filled into a command template.
use vstd::prelude::*;

use crate::handle::{
    escape_for, escape_posix, escaped_args, interpolate_spec, join, placeholder,
    plain_chars, ShellKind,
};
use crate::text::{contains_seq, matches_at, replace_all};

verus! {

/// Characters that a POSIX shell treats specially outside quotes.
pub open spec fn sh_special(c: char) -> bool {
    ||| crate::text::is_ws(c)
    ||| c == '|' || c == '&' || c == ';' || c == '<' || c == '>' || c == '(' || c == ')'
    ||| c == '$' || c == '`' || c == '\\' || c == '"' || c == '\'' || c == '*' || c == '?'
    ||| c == '[' || c == ']' || c == '#' || c == '~' || c == '{' || c == '}' || c == '!'
}

/// How a POSIX shell reads `w` as one word: outside quotes a `'` opens a
/// single-quoted part, a `\` takes the next character literally, and other
/// characters stand for themselves unless they are special; inside, every
/// character stands for itself until the closing `'`. `None` when `w` is
/// not read as exactly one word this way.
pub open spec fn sh_read(w: Seq<char>, quoted: bool) -> Option<Seq<char>>
    decreases w.len(),
{
    if w.len() == 0 {
        if quoted {
            None
        } else {
            Some(Seq::empty())
        }
    } else if quoted {
        if w[0] == '\'' {
            sh_read(w.drop_first(), false)
        } else {
            match sh_read(w.drop_first(), true) {
                Some(r) => Some(seq![w[0]] + r),
                None => None,
            }
        }
    } else if w[0] == '\'' {
        sh_read(w.drop_first(), true)
    } else if w[0] == '\\' {
        if w.len() < 2 {
            None
        } else {
            match sh_read(w.skip(2), false) {
                Some(r) => Some(seq![w[1]] + r),
                None => None,
            }
        }
    } else if sh_special(w[0]) {
        None
    } else {
        match sh_read(w.drop_first(), false) {
            Some(r) => Some(seq![w[0]] + r),
            None => None,
        }
    }
}

proof fn lemma_read_plain(a: Seq<char>)
    requires
        crate::text::all_name_chars(a, plain_chars()),
    ensures
        sh_read(a, false) == Some(a),
    decreases a.len(),
{
    reveal_strlit("-._/:@=+%,");
    if a.len() > 0 {
        assert(crate::text::is_alnum(a[0]) || plain_chars().contains(a[0]));
        if plain_chars().contains(a[0]) {
            let j = choose|j: int| 0 <= j < plain_chars().len() && plain_chars()[j] == a[0];
            assert(0 <= j < 10);
        }
        let rest = a.drop_first();
        assert forall|i: int| 0 <= i < rest.len() implies crate::text::is_alnum(#[trigger] rest[i])
            || plain_chars().contains(rest[i]) by {
            assert(rest[i] == a[i + 1]);
        }
        lemma_read_plain(rest);
        assert(seq![a[0]] + rest =~= a);
    }
}

proof fn lemma_read_quoted_body(a: Seq<char>, t: Seq<char>)
    ensures
        sh_read(crate::text::replace_all(a, "'"@, "'\\''"@) + "'"@ + t, true) == match sh_read(t, false) {
            Some(r) => Some(a + r),
            None => None,
        },
    decreases a.len(),
{
    reveal_strlit("'");
    reveal_strlit("'\\''");
    let q = "'"@;
    let rep = "'\\''"@;
    let w = crate::text::replace_all(a, q, rep) + q + t;
    if a.len() == 0 {
        assert(crate::text::replace_all(a, q, rep) == a);
        assert(w =~= q + t);
        assert(w[0] == '\'');
        assert(w.drop_first() =~= t);
        assert(sh_read(w, true) == sh_read(t, false));
        match sh_read(t, false) {
            Some(r) => {
                assert(a + r =~= r);
            },
            None => {},
        }
    } else {
        lemma_read_quoted_body(if a[0] == '\'' { a.skip(1) } else { a.drop_first() }, t);
        if a[0] == '\'' {
            lemma_quote_at_start(a);
            let inner = crate::text::replace_all(a.skip(1), q, rep) + q + t;
            assert(crate::text::replace_all(a, q, rep) == rep + crate::text::replace_all(a.skip(1), q, rep));
            assert(w =~= rep + inner);
            let w1 = w.drop_first();
            let w2 = w1.skip(2);
            assert(w[0] == '\'');
            assert(sh_read(w, true) == sh_read(w1, false));
            assert(w1[0] == '\\' && w1[1] == '\'' && w1.len() >= 2);
            assert(w2 =~= seq!['\''] + inner);
            assert(w2[0] == '\'');
            assert(w2.drop_first() =~= inner);
            assert(sh_read(w2, false) == sh_read(inner, true));
            assert(a =~= seq!['\''] + a.skip(1));
            match sh_read(t, false) {
                Some(r) => {
                    assert(seq!['\''] + (a.skip(1) + r) =~= a + r);
                },
                None => {},
            }
        } else {
            assert(!crate::text::matches_at(a, 0, q)) by {
                if crate::text::matches_at(a, 0, q) {
                    assert(a.subrange(0, 1)[0] == q[0]);
                }
            }
            let inner = crate::text::replace_all(a.drop_first(), q, rep) + q + t;
            assert(crate::text::replace_all(a, q, rep) == seq![a[0]] + crate::text::replace_all(a.drop_first(), q, rep));
            assert(w =~= seq![a[0]] + inner);
            assert(w[0] == a[0]);
            assert(w.drop_first() =~= inner);
            match sh_read(t, false) {
                Some(r) => {
                    assert(seq![a[0]] + (a.drop_first() + r) =~= a + r);
                },
                None => {},
            }
        }
    }
}

proof fn lemma_quote_at_start(a: Seq<char>)
    requires
        a.len() > 0,
        a[0] == '\'',
    ensures
        crate::text::matches_at(a, 0, "'"@),
{
    reveal_strlit("'");
    assert(a.subrange(0, 1) =~= "'"@);
}

/// Every argument, quoted for `sh`, is read back by the shell as exactly one
/// word equal to the argument.
pub proof fn lemma_posix_quoting_reads_back(arg: Seq<char>)
    ensures
        sh_read(escape_posix(arg), false) == Some(arg),
{
    reveal_strlit("''");
    reveal_strlit("'");
    if arg.len() == 0 {
        let w = "''"@;
        assert(escape_posix(arg) == w);
        assert(w.drop_first().drop_first() =~= Seq::<char>::empty());
        assert(sh_read(w.drop_first().drop_first(), false) == Some(Seq::<char>::empty()));
        assert(sh_read(w.drop_first(), true) == Some(Seq::<char>::empty()));
        assert(arg =~= Seq::<char>::empty());
    } else if crate::text::all_name_chars(arg, plain_chars()) {
        lemma_read_plain(arg);
    } else {
        let body = crate::text::replace_all(arg, "'"@, "'\\''"@);
        lemma_read_quoted_body(arg, Seq::empty());
        let w = "'"@ + body + "'"@;
        assert(escape_posix(arg) == w);
        assert(w[0] == '\'');
        assert(w.drop_first() =~= body + "'"@ + Seq::<char>::empty());
        assert(arg + Seq::<char>::empty() =~= arg);
    }
}

proof fn lemma_replace_after_prefix(p: Seq<char>, r: Seq<char>, pat: Seq<char>, rep: Seq<char>)
    requires
        pat.len() > 0,
        forall|i: int| 0 <= i < p.len() ==> !matches_at(p + r, i, pat),
    ensures
        replace_all(p + r, pat, rep) == p + replace_all(r, pat, rep),
    decreases p.len(),
{
    if p.len() == 0 {
        assert(p + r =~= r);
        assert(p + replace_all(r, pat, rep) =~= replace_all(r, pat, rep));
    } else {
        let s = p + r;
        let pd = p.drop_first();
        assert(s.drop_first() =~= pd + r);
        assert forall|i: int| 0 <= i < pd.len() implies !matches_at(pd + r, i, pat) by {
            assert(!matches_at(s, i + 1, pat));
            if i + pat.len() <= (pd + r).len() {
                assert((pd + r).subrange(i, i + pat.len()) =~= s.subrange(i + 1, i + 1 + pat.len()));
            }
        }
        lemma_replace_after_prefix(pd, r, pat, rep);
        assert(!matches_at(s, 0, pat));
        assert(replace_all(s, pat, rep) == seq![s[0]] + replace_all(s.drop_first(), pat, rep));
        assert(seq![s[0]] + (pd + replace_all(r, pat, rep)) =~= p + replace_all(r, pat, rep));
    }
}

proof fn lemma_escape_nonempty(shell: ShellKind, a: Seq<char>)
    ensures
        escape_for(shell, a).len() > 0,
{
    reveal_strlit("''");
    reveal_strlit("'");
    reveal_strlit("\"\"");
    reveal_strlit("\"");
}

proof fn lemma_join_nonempty(shell: ShellKind, args: Seq<Seq<char>>)
    requires
        args.len() > 0,
    ensures
        join(escaped_args(shell, args), " "@).len() > 0,
{
    reveal_strlit(" ");
    let parts = escaped_args(shell, args);
    if parts.len() == 1 {
        lemma_escape_nonempty(shell, args[0]);
        assert(parts[0] == escape_for(shell, args[0]));
    }
}

/// A placeholder at the end of a template is the same as no placeholder:
/// the arguments, quoted and separated by single spaces, follow the
/// template after one space; so `P {{args}}` and `P` run the same command
/// line for any arguments.
pub proof fn lemma_placeholder_same_as_appending(shell: ShellKind, p: Seq<char>, args: Seq<Seq<char>>)
    requires
        !contains_seq(p, placeholder()),
        args.len() > 0,
    ensures
        interpolate_spec(shell, p + " {{args}}"@, args) == interpolate_spec(shell, p, args),
{
    reveal_strlit("{{args}}");
    reveal_strlit(" {{args}}");
    reveal_strlit(" ");
    let ph = placeholder();
    let tail = " {{args}}"@;
    let t = p + tail;
    let n = p.len() as int;
    let joined = join(escaped_args(shell, args), " "@);
    lemma_join_nonempty(shell, args);
    assert(t.subrange(n + 1, n + 9) =~= ph);
    assert(matches_at(t, n + 1, ph));
    assert(contains_seq(t, ph));
    assert forall|i: int| 0 <= i < n implies !matches_at(t, i, ph) by {
        if matches_at(t, i, ph) {
            if i + 8 <= n {
                assert(p.subrange(i, i + 8) =~= t.subrange(i, i + 8));
                assert(matches_at(p, i, ph));
            } else {
                assert(t.subrange(i, i + 8)[n - i] == t[n]);
                assert(t[n] == ' ');
                assert(ph[n - i] != ' ');
            }
        }
    }
    lemma_replace_after_prefix(p, tail, ph, joined);
    assert(!matches_at(tail, 0, ph)) by {
        if matches_at(tail, 0, ph) {
            assert(tail.subrange(0, 8)[0] == ph[0]);
        }
    }
    let rest = tail.drop_first();
    assert(rest =~= ph);
    assert(matches_at(rest, 0, ph)) by {
        assert(rest.subrange(0, 8) =~= ph);
    }
    assert(rest.skip(8) =~= Seq::<char>::empty());
    assert(replace_all(rest, ph, joined) == joined + replace_all(rest.skip(8), ph, joined));
    assert(replace_all(rest, ph, joined) =~= joined);
    assert(replace_all(tail, ph, joined) == seq![tail[0]] + replace_all(rest, ph, joined));
    assert(p + (seq![' '] + joined) =~= p + " "@ + joined);
}

/// Without a placeholder, one more argument adds one space and that
/// argument, quoted, at the end of the command line.
pub proof fn lemma_one_more_argument(shell: ShellKind, p: Seq<char>, args: Seq<Seq<char>>, x: Seq<char>)
    requires
        !contains_seq(p, placeholder()),
        args.len() > 0,
    ensures
        interpolate_spec(shell, p, args.push(x)) == interpolate_spec(shell, p, args) + " "@
            + escape_for(shell, x),
{
    reveal_strlit(" ");
    let e = escaped_args(shell, args);
    let e2 = escaped_args(shell, args.push(x));
    assert(e2 =~= e.push(escape_for(shell, x)));
    assert(e2.drop_last() =~= e);
    lemma_join_nonempty(shell, args);
    lemma_join_nonempty(shell, args.push(x));
    assert(join(e2, " "@) == join(e, " "@) + " "@ + escape_for(shell, x));
    assert(p + " "@ + (join(e, " "@) + " "@ + escape_for(shell, x)) =~= p + " "@ + join(e, " "@) + " "@
        + escape_for(shell, x));
}

/// A character that needs no quoting: an ASCII letter or digit, or one of
/// `- . _ / : @ = + % ,`.
pub open spec fn unquoted_char(c: char) -> bool {
    let u = c as u32;
    ||| (0x30 <= u && u <= 0x39)
    ||| (0x41 <= u && u <= 0x5A)
    ||| (0x61 <= u && u <= 0x7A)
    ||| c == '-' || c == '.' || c == '_' || c == '/' || c == ':' || c == '@' || c == '=' || c
        == '+' || c == '%' || c == ','
}

/// A non-empty argument made only of characters that need no quoting is
/// passed as it is, for `sh` and for `cmd`; any other argument is wrapped in
/// quotes (so it begins and ends with one).
pub proof fn lemma_plain_arguments_unquoted(shell: ShellKind, arg: Seq<char>)
    ensures
        arg.len() > 0 && (forall|i: int| 0 <= i < arg.len() ==> unquoted_char(#[trigger] arg[i]))
            ==> escape_for(shell, arg) == arg,
        !(arg.len() > 0 && (forall|i: int| 0 <= i < arg.len() ==> unquoted_char(#[trigger] arg[i])))
            ==> escape_for(shell, arg).len() >= 2 && escape_for(shell, arg)[0] == (match shell {
            ShellKind::Posix => '\'',
            ShellKind::Cmd => '"',
        }) && escape_for(shell, arg).last() == (match shell {
            ShellKind::Posix => '\'',
            ShellKind::Cmd => '"',
        }),
{
    reveal_strlit("-._/:@=+%,");
    reveal_strlit("''");
    reveal_strlit("'");
    reveal_strlit("\"\"");
    reveal_strlit("\"");
    let pc = plain_chars();
    assert(pc.len() == 10 && pc[0] == '-' && pc[1] == '.' && pc[2] == '_' && pc[3] == '/' && pc[4]
        == ':' && pc[5] == '@' && pc[6] == '=' && pc[7] == '+' && pc[8] == '%' && pc[9] == ',');
    let all_plain = forall|i: int| 0 <= i < arg.len() ==> unquoted_char(#[trigger] arg[i]);
    assert(crate::text::all_name_chars(arg, pc) == all_plain) by {
        if all_plain {
            assert forall|i: int| 0 <= i < arg.len() implies crate::text::is_alnum(#[trigger] arg[i])
                || pc.contains(arg[i]) by {
                assert(unquoted_char(arg[i]));
                let c = arg[i];
                if c == '-' { assert(pc[0] == c); }
                else if c == '.' { assert(pc[1] == c); }
                else if c == '_' { assert(pc[2] == c); }
                else if c == '/' { assert(pc[3] == c); }
                else if c == ':' { assert(pc[4] == c); }
                else if c == '@' { assert(pc[5] == c); }
                else if c == '=' { assert(pc[6] == c); }
                else if c == '+' { assert(pc[7] == c); }
                else if c == '%' { assert(pc[8] == c); }
                else if c == ',' { assert(pc[9] == c); }
            }
        }
        if crate::text::all_name_chars(arg, pc) {
            assert forall|i: int| 0 <= i < arg.len() implies unquoted_char(#[trigger] arg[i]) by {
                assert(crate::text::is_alnum(arg[i]) || pc.contains(arg[i]));
                if pc.contains(arg[i]) {
                    let j = choose|j: int| 0 <= j < pc.len() && pc[j] == arg[i];
                }
            }
        }
    }
}

} // verus!
