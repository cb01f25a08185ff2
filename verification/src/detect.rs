//! Zero-config command detection.
//!
//! When a project has no (or incomplete) x configuration, useful commands
//! are derived from whatever the project already is: a cargo project gets
//! build/test/clippy/..., package.json scripts are bridged, and Makefile /
//! justfile / Taskfile targets become x commands.
//!
//! Detected commands form the lowest-precedence config layer: any command
//! defined in ~/.x.toml, x.toml, or [package.metadata.x] overrides them.
use vstd::prelude::*;

use crate::config::{
    is_reserved, lookup, opt_view, reserved, CommandKind, CommandView, KindView, Xconf, XconfView,
    Command,
};
use crate::data::{json_document, parse_json, Data};
use crate::name_map::NameMap;
use crate::text::{
    lemma_sorted_of, push_str, sorted_of,
    add_name, chars_of, contains_exec, contains_seq, eq_str, find_char, find_char_exec,
    has_prefix, is_ws, is_whitespace, lines, opt_chars, opt_seq, seq_contains_char, slice_chars,
    sorted_names, split_lines, starts_char, starts_with_str, starts_ws, strings_of,
    string_views, trim, trim_chars, trim_end, trim_end_chars, trim_start, trim_start_chars, views,
    all_name_chars, check_name_chars,
};

verus! {

// ---------------------------------------------------------------------------
// Makefile targets
// ---------------------------------------------------------------------------

/// The target a Makefile line defines, if any: `name: deps`, where the name
/// has only letters, digits, `-`, `_` and `.`, does not start with `.`, and
/// the colon does not start an assignment (`:=`, `::=`).
pub open spec fn make_target(line: Seq<char>) -> Option<Seq<char>> {
    if starts_ws(line) || starts_char(line, '#') {
        None
    } else {
        match find_char(line, ':') {
            None => None,
            Some(c) => if starts_char(line.skip(c + 1), '=') {
                None
            } else {
                let name = trim(line.take(c));
                if name.len() == 0 || name[0] == '.' || name.contains('%') || name.contains(' ')
                    || !all_name_chars(name, "-_."@) {
                    None
                } else {
                    Some(name)
                }
            },
        }
    }
}

/// The targets of the lines, in line order (with repetitions).
pub open spec fn make_candidates(ls: Seq<Seq<char>>) -> Seq<Seq<char>>
    decreases ls.len(),
{
    if ls.len() == 0 {
        Seq::empty()
    } else {
        make_candidates(ls.drop_last()) + opt_seq(make_target(ls.last()))
    }
}

/// A character a Makefile target name may have: an ASCII letter or digit,
/// `-`, `_` or `.`.
pub open spec fn make_name_char(c: char) -> bool {
    let u = c as u32;
    ||| (0x30 <= u && u <= 0x39)
    ||| (0x41 <= u && u <= 0x5A)
    ||| (0x61 <= u && u <= 0x7A)
    ||| c == '-' || c == '_' || c == '.'
}

/// Which Makefile lines define targets: an unindented line `name:rest`,
/// whose name is non-empty, does not start with `.`, has only ASCII letters,
/// digits, `-`, `_` and `.`, and whose colon is not followed by `=`, defines
/// the target `name`; and every target a line defines is such a name.
pub proof fn lemma_make_line_target(name: Seq<char>, rest: Seq<char>, line: Seq<char>)
    ensures
        name.len() > 0 && name[0] != '.' && (forall|i: int|
            0 <= i < name.len() ==> make_name_char(#[trigger] name[i])) && !(rest.len() > 0
            && rest[0] == '=') ==> make_target(name + seq![':'] + rest) == Some(name),
        make_target(line) matches Some(n) ==> n.len() > 0 && n[0] != '.' && forall|i: int|
            0 <= i < n.len() ==> make_name_char(#[trigger] n[i]),
{
    reveal_strlit("-_.");
    let extra = "-_."@;
    assert(extra[0] == '-' && extra[1] == '_' && extra[2] == '.' && extra.len() == 3);
    if name.len() > 0 && name[0] != '.' && (forall|i: int|
        0 <= i < name.len() ==> make_name_char(#[trigger] name[i])) && !(rest.len() > 0 && rest[0]
        == '=') {
        let l = name + seq![':'] + rest;
        let n = name.len() as int;
        assert(l[0] == name[0]);
        assert(make_name_char(name[0]));
        assert(!is_ws(l[0]));
        assert forall|j: int| 0 <= j < n implies l[j] != ':' by {
            assert(l[j] == name[j]);
            assert(make_name_char(name[j]));
        }
        assert(l[n] == ':');
        crate::text::lemma_find_char_at(l, ':', n);
        assert(l.skip(n + 1) =~= rest);
        assert(l.take(n) =~= name);
        assert(make_name_char(name.last()));
        assert(!is_ws(name.last()));
        assert(trim_start(name) == name);
        assert(trim_end(name) == name);
        assert(trim(name) == name);
        assert forall|j: int| 0 <= j < name.len() implies name[j] != '%' && name[j] != ' ' by {
            assert(make_name_char(name[j]));
        }
        assert forall|j: int| 0 <= j < name.len() implies crate::text::is_alnum(#[trigger] name[j])
            || extra.contains(name[j]) by {
            assert(make_name_char(name[j]));
            if name[j] == '-' {
                assert(extra[0] == name[j]);
            } else if name[j] == '_' {
                assert(extra[1] == name[j]);
            } else if name[j] == '.' {
                assert(extra[2] == name[j]);
            }
        }
    }
    if make_target(line) is Some {
        let m = make_target(line)->0;
        assert forall|i: int| 0 <= i < m.len() implies make_name_char(#[trigger] m[i]) by {
            assert(crate::text::is_alnum(m[i]) || extra.contains(m[i]));
            if extra.contains(m[i]) {
                let j = choose|j: int| 0 <= j < extra.len() && extra[j] == m[i];
            }
        }
    }
}

proof fn lemma_make_candidates_has(ls: Seq<Seq<char>>, i: int)
    requires
        0 <= i < ls.len(),
        make_target(ls[i]) is Some,
    ensures
        make_candidates(ls).contains(make_target(ls[i])->0),
    decreases ls.len(),
{
    let t = make_target(ls[i])->0;
    if i == ls.len() - 1 {
        assert(opt_seq(make_target(ls.last())) =~= seq![t]);
        assert(make_candidates(ls)[make_candidates(ls.drop_last()).len() as int] == t);
    } else {
        lemma_make_candidates_has(ls.drop_last(), i);
        let pre = make_candidates(ls.drop_last());
        let j = choose|j: int| 0 <= j < pre.len() && pre[j] == t;
        assert(make_candidates(ls)[j] == t);
    }
}

/// The targets of a Makefile, line by line: when `targets` holds the names
/// `parse_make_targets` returns for `text`, a line `name:rest` of the text
/// with such a name, its colon not followed by `=`, puts `name` among them.
pub proof fn lemma_make_targets_include(
    text: Seq<char>,
    targets: Seq<Seq<char>>,
    i: int,
    name: Seq<char>,
    rest: Seq<char>,
)
    requires
        sorted_names(targets, make_candidates(lines(text))),
        0 <= i < lines(text).len(),
        lines(text)[i] == name + seq![':'] + rest,
        name.len() > 0,
        name[0] != '.',
        forall|j: int| 0 <= j < name.len() ==> make_name_char(#[trigger] name[j]),
        !(rest.len() > 0 && rest[0] == '='),
    ensures
        targets.contains(name),
{
    lemma_make_line_target(name, rest, Seq::empty());
    lemma_make_candidates_has(lines(text), i);
    assert(make_candidates(lines(text)).to_set().contains(name));
    assert(targets.to_set().contains(name));
}

fn make_target_exec(line: &Vec<char>) -> (r: Option<Vec<char>>)
    ensures
        opt_chars(r) == make_target(line@),
{
    if line.len() > 0 && (is_whitespace(line[0]) || line[0] == '#') {
        return None;
    }
    proof {
        crate::text::lemma_find_char(line@, ':');
    }
    let c = match find_char_exec(line, ':') {
        None => {
            return None;
        },
        Some(c) => c,
    };
    if c + 1 < line.len() && line[c + 1] == '=' {
        assert(line@.skip(c + 1)[0] == line@[c + 1]);
        return None;
    }
    assert(c + 1 >= line.len() ==> line@.skip(c + 1).len() == 0);
    assert(c + 1 < line.len() ==> line@.skip(c + 1)[0] == line@[c + 1]);
    let head = slice_chars(line, 0, c);
    assert(head@ =~= line@.take(c as int));
    let name = trim_chars(&head);
    let extra = chars_of("-_.");
    if name.len() == 0 || name[0] == '.' || seq_contains_char(&name, '%') || seq_contains_char(
        &name,
        ' ',
    ) || !check_name_chars(&name, &extra) {
        return None;
    }
    Some(name)
}

/// Extract target names from Makefile text: the names of
/// [`make_target`] lines, sorted, each once.
pub fn parse_make_targets(text: &str) -> (targets: Vec<String>)
    ensures
        sorted_names(string_views(targets@), make_candidates(lines(text@))),
{
    let t = chars_of(text);
    let ls = split_lines(&t);
    let mut out: Vec<Vec<char>> = Vec::new();
    let mut i: usize = 0;
    assert(views(ls@).take(0) =~= Seq::<Seq<char>>::empty());
    assert(out@.to_set() =~= Set::empty());
    assert(views(out@).to_set() =~= Set::empty());
    assert(make_candidates(Seq::<Seq<char>>::empty()).to_set() =~= Set::empty());
    while i < ls.len()
        invariant
            i <= ls.len(),
            views(ls@) == lines(text@),
            sorted_names(views(out@), make_candidates(views(ls@).take(i as int))),
        decreases ls.len() - i,
    {
        let name = make_target_exec(&ls[i]);
        let ghost seen = make_candidates(views(ls@).take(i as int));
        add_name(&mut out, name, Ghost(seen));
        assert(views(ls@).take(i + 1).drop_last() =~= views(ls@).take(i as int));
        i += 1;
    }
    assert(views(ls@).take(ls.len() as int) =~= views(ls@));
    strings_of(&out)
}

// ---------------------------------------------------------------------------
// justfile recipes
// ---------------------------------------------------------------------------

/// The characters before the first whitespace.
pub open spec fn take_word(s: Seq<char>) -> Seq<char>
    decreases s.len(),
{
    if s.len() == 0 || is_ws(s[0]) {
        Seq::empty()
    } else {
        seq![s[0]] + take_word(s.drop_first())
    }
}

/// The first whitespace-separated word (`split_whitespace().next()`), or
/// the empty sequence when there is none.
pub open spec fn first_word(s: Seq<char>) -> Seq<char> {
    take_word(trim_start(s))
}

fn first_word_exec(s: &Vec<char>) -> (w: Vec<char>)
    ensures
        w@ == first_word(s@),
{
    let t = trim_start_chars(s);
    let mut i: usize = 0;
    while i < t.len() && !is_whitespace(t[i])
        invariant
            i <= t.len(),
            forall|j: int| 0 <= j < i ==> !is_ws(#[trigger] t@[j]),
        decreases t.len() - i,
    {
        i += 1;
    }
    proof {
        lemma_take_word(t@, i as int);
    }
    slice_chars(&t, 0, i)
}

proof fn lemma_take_word(t: Seq<char>, i: int)
    requires
        0 <= i <= t.len(),
        forall|j: int| 0 <= j < i ==> !is_ws(#[trigger] t[j]),
        i == t.len() || is_ws(t[i]),
    ensures
        take_word(t) == t.subrange(0, i),
    decreases i,
{
    if i == 0 {
        assert(t.subrange(0, 0) =~= Seq::<char>::empty());
    } else {
        assert(!is_ws(t[0]));
        assert forall|j: int| 0 <= j < i - 1 implies !is_ws(#[trigger] t.drop_first()[j]) by {
            assert(t.drop_first()[j] == t[j + 1]);
        }
        if i < t.len() {
            assert(t.drop_first()[i - 1] == t[i]);
        }
        lemma_take_word(t.drop_first(), i - 1);
        assert(t.subrange(0, i) =~= seq![t[0]] + t.drop_first().subrange(0, i - 1));
    }
}

/// Words that start justfile settings and statements, not recipes.
pub open spec fn just_keyword(w: Seq<char>) -> bool {
    w == "set"@ || w == "alias"@ || w == "import"@ || w == "mod"@ || w == "export"@
}

/// The recipe a justfile line starts, if any: a line `name args...:` (an
/// `@` before it allowed), not an assignment (`:=`), whose name has only
/// letters, digits, `-` and `_` and is not a keyword.
pub open spec fn just_recipe(line0: Seq<char>) -> Option<Seq<char>> {
    let line = if starts_char(line0, '@') {
        line0.drop_first()
    } else {
        line0
    };
    if starts_ws(line) || starts_char(line, '#') {
        None
    } else if contains_seq(line, ":="@) {
        None
    } else {
        match find_char(line, ':') {
            None => None,
            Some(c) => {
                let name = first_word(line.take(c));
                if name.len() == 0 || just_keyword(name) || !all_name_chars(name, "-_"@) {
                    None
                } else {
                    Some(name)
                }
            },
        }
    }
}

/// A character a justfile recipe name may have: an ASCII letter or digit,
/// `-` or `_`.
pub open spec fn just_name_char(c: char) -> bool {
    let u = c as u32;
    ||| (0x30 <= u && u <= 0x39)
    ||| (0x41 <= u && u <= 0x5A)
    ||| (0x61 <= u && u <= 0x7A)
    ||| c == '-' || c == '_'
}

/// Which justfile lines start recipes: a line `name:rest`, or `@name:rest`,
/// whose name is non-empty, has only ASCII letters, digits, `-` and `_`, is
/// none of `set`, `alias`, `import`, `mod`, `export`, and which holds no
/// `:=`, starts the recipe `name`; and every recipe a line starts has such a
/// name.
pub proof fn lemma_just_line_recipe(at: bool, name: Seq<char>, rest: Seq<char>, line: Seq<char>)
    ensures
        name.len() > 0 && (forall|i: int| 0 <= i < name.len() ==> just_name_char(#[trigger] name[i]))
            && name != "set"@ && name != "alias"@ && name != "import"@ && name != "mod"@ && name
            != "export"@ && !contains_seq(rest, ":="@) && !(rest.len() > 0 && rest[0] == '=')
            ==> just_recipe((if at { seq!['@'] } else { Seq::empty() }) + name + seq![':'] + rest)
            == Some(name),
        just_recipe(line) matches Some(n) ==> n.len() > 0 && forall|i: int|
            0 <= i < n.len() ==> just_name_char(#[trigger] n[i]),
{
    reveal_strlit("-_");
    reveal_strlit(":=");
    let extra = "-_"@;
    assert(extra[0] == '-' && extra[1] == '_' && extra.len() == 2);
    if name.len() > 0 && (forall|i: int| 0 <= i < name.len() ==> just_name_char(#[trigger] name[i]))
        && name != "set"@ && name != "alias"@ && name != "import"@ && name != "mod"@ && name
        != "export"@ && !contains_seq(rest, ":="@) && !(rest.len() > 0 && rest[0] == '=') {
        let body = name + seq![':'] + rest;
        let pre = if at { seq!['@'] } else { Seq::<char>::empty() };
        let full = pre + body;
        assert(pre + name + seq![':'] + rest =~= full);
        let n = name.len() as int;
        assert(just_name_char(name[0]));
        assert(name[0] != '@');
        if at {
            assert(full[0] == '@');
            assert(full.drop_first() =~= body);
        } else {
            assert(full =~= body);
            assert(full[0] == name[0]);
        }
        assert(body[0] == name[0]);
        assert(!is_ws(body[0]));
        assert forall|j: int| 0 <= j < n implies body[j] != ':' by {
            assert(body[j] == name[j]);
            assert(just_name_char(name[j]));
        }
        crate::text::lemma_find_char_at(body, ':', n);
        assert(!contains_seq(body, ":="@)) by {
            if contains_seq(body, ":="@) {
                let i = choose|i: int| crate::text::matches_at(body, i, ":="@);
                assert(body.subrange(i, i + 2)[0] == ':');
                assert(body.subrange(i, i + 2)[1] == '=');
                assert(body[i] == ':');
                if i < n {
                    assert(body[i] == name[i]);
                    assert(just_name_char(name[i]));
                } else if i == n {
                    assert(body[n + 1] == rest[0]);
                } else {
                    assert(rest.subrange(i - n - 1, i - n + 1) =~= body.subrange(i, i + 2));
                    assert(crate::text::matches_at(rest, i - n - 1, ":="@));
                }
            }
        }
        assert(body.take(n) =~= name);
        assert forall|j: int| 0 <= j < n implies !is_ws(#[trigger] name[j]) by {
            assert(just_name_char(name[j]));
        }
        assert(trim_start(name) == name);
        lemma_take_word(name, n);
        assert(name.subrange(0, n) =~= name);
        assert(first_word(body.take(n)) == name);
        assert forall|j: int| 0 <= j < name.len() implies crate::text::is_alnum(#[trigger] name[j])
            || extra.contains(name[j]) by {
            assert(just_name_char(name[j]));
            if name[j] == '-' {
                assert(extra[0] == name[j]);
            } else if name[j] == '_' {
                assert(extra[1] == name[j]);
            }
        }
        assert(!just_keyword(name));
        assert(!starts_char(body, '#'));
        if at {
            assert(starts_char(full, '@'));
        } else {
            assert(!starts_char(full, '@'));
        }
        assert(just_recipe(full) == Some(name));
    }
    if just_recipe(line) is Some {
        let m = just_recipe(line)->0;
        assert forall|i: int| 0 <= i < m.len() implies just_name_char(#[trigger] m[i]) by {
            assert(crate::text::is_alnum(m[i]) || extra.contains(m[i]));
            if extra.contains(m[i]) {
                let j = choose|j: int| 0 <= j < extra.len() && extra[j] == m[i];
            }
        }
    }
}

pub open spec fn just_candidates(ls: Seq<Seq<char>>) -> Seq<Seq<char>>
    decreases ls.len(),
{
    if ls.len() == 0 {
        Seq::empty()
    } else {
        just_candidates(ls.drop_last()) + opt_seq(just_recipe(ls.last()))
    }
}

proof fn lemma_just_candidates_has(ls: Seq<Seq<char>>, i: int)
    requires
        0 <= i < ls.len(),
        just_recipe(ls[i]) is Some,
    ensures
        just_candidates(ls).contains(just_recipe(ls[i])->0),
    decreases ls.len(),
{
    let t = just_recipe(ls[i])->0;
    if i == ls.len() - 1 {
        assert(opt_seq(just_recipe(ls.last())) =~= seq![t]);
        assert(just_candidates(ls)[just_candidates(ls.drop_last()).len() as int] == t);
    } else {
        lemma_just_candidates_has(ls.drop_last(), i);
        let pre = just_candidates(ls.drop_last());
        let j = choose|j: int| 0 <= j < pre.len() && pre[j] == t;
        assert(just_candidates(ls)[j] == t);
    }
}

/// The recipes of a justfile, line by line: when `recipes` holds the names
/// `parse_just_recipes` returns for `text`, a line `name:rest` (or
/// `@name:rest`) of the text with such a name and no `:=` puts `name` among
/// them.
pub proof fn lemma_just_recipes_include(
    text: Seq<char>,
    recipes: Seq<Seq<char>>,
    i: int,
    at: bool,
    name: Seq<char>,
    rest: Seq<char>,
)
    requires
        sorted_names(recipes, just_candidates(lines(text))),
        0 <= i < lines(text).len(),
        lines(text)[i] == (if at { seq!['@'] } else { Seq::empty() }) + name + seq![':'] + rest,
        name.len() > 0,
        forall|j: int| 0 <= j < name.len() ==> just_name_char(#[trigger] name[j]),
        name != "set"@ && name != "alias"@ && name != "import"@ && name != "mod"@ && name != "export"@,
        !contains_seq(rest, ":="@),
        !(rest.len() > 0 && rest[0] == '='),
    ensures
        recipes.contains(name),
{
    lemma_just_line_recipe(at, name, rest, Seq::empty());
    lemma_just_candidates_has(lines(text), i);
    assert(just_candidates(lines(text)).to_set().contains(name));
    assert(recipes.to_set().contains(name));
}

fn just_recipe_exec(line0: &Vec<char>) -> (r: Option<Vec<char>>)
    ensures
        opt_chars(r) == just_recipe(line0@),
{
    let line = if line0.len() > 0 && line0[0] == '@' {
        let l = slice_chars(line0, 1, line0.len());
        assert(l@ =~= line0@.drop_first());
        l
    } else {
        slice_chars(line0, 0, line0.len())
    };
    assert(line0@.subrange(0, line0@.len() as int) =~= line0@);
    if line.len() > 0 && (is_whitespace(line[0]) || line[0] == '#') {
        return None;
    }
    let assign = chars_of(":=");
    if contains_exec(&line, &assign) {
        return None;
    }
    let c = match find_char_exec(&line, ':') {
        None => {
            return None;
        },
        Some(c) => c,
    };
    proof {
        crate::text::lemma_find_char(line@, ':');
    }
    let head = slice_chars(&line, 0, c);
    assert(head@ =~= line@.take(c as int));
    let name = first_word_exec(&head);
    let extra = chars_of("-_");
    if name.len() == 0 || eq_str(&name, "set") || eq_str(&name, "alias") || eq_str(&name, "import")
        || eq_str(&name, "mod") || eq_str(&name, "export") || !check_name_chars(&name, &extra) {
        return None;
    }
    Some(name)
}

/// Extract recipe names from justfile text: the names of [`just_recipe`]
/// lines, sorted, each once.
pub fn parse_just_recipes(text: &str) -> (recipes: Vec<String>)
    ensures
        sorted_names(string_views(recipes@), just_candidates(lines(text@))),
{
    let t = chars_of(text);
    let ls = split_lines(&t);
    let mut out: Vec<Vec<char>> = Vec::new();
    let mut i: usize = 0;
    assert(views(ls@).take(0) =~= Seq::<Seq<char>>::empty());
    assert(views(out@).to_set() =~= Set::empty());
    assert(just_candidates(Seq::<Seq<char>>::empty()).to_set() =~= Set::empty());
    while i < ls.len()
        invariant
            i <= ls.len(),
            views(ls@) == lines(text@),
            sorted_names(views(out@), just_candidates(views(ls@).take(i as int))),
        decreases ls.len() - i,
    {
        let name = just_recipe_exec(&ls[i]);
        let ghost seen = just_candidates(views(ls@).take(i as int));
        add_name(&mut out, name, Ghost(seen));
        assert(views(ls@).take(i + 1).drop_last() =~= views(ls@).take(i as int));
        i += 1;
    }
    assert(views(ls@).take(ls.len() as int) =~= views(ls@));
    strings_of(&out)
}

// ---------------------------------------------------------------------------
// Taskfile tasks
// ---------------------------------------------------------------------------

/// `s` with every trailing `:` removed.
pub open spec fn trim_colons(s: Seq<char>) -> Seq<char>
    decreases s.len(),
{
    if s.len() > 0 && s.last() == ':' {
        trim_colons(s.drop_last())
    } else {
        s
    }
}

fn trim_colons_exec(s: &Vec<char>) -> (r: Vec<char>)
    ensures
        r@ == trim_colons(s@),
{
    let mut i: usize = s.len();
    assert(s@.take(s.len() as int) =~= s@);
    while i > 0 && s[i - 1] == ':'
        invariant
            i <= s.len(),
            trim_colons(s@) == trim_colons(s@.take(i as int)),
        decreases i,
    {
        assert(s@.take(i as int).drop_last() =~= s@.take(i - 1));
        i -= 1;
    }
    let r = slice_chars(s, 0, i);
    assert(r@ =~= s@.take(i as int));
    r
}

/// A line indented by exactly one level: two spaces or one tab.
pub open spec fn level_one(line: Seq<char>) -> bool {
    (has_prefix(line, "  "@) && !has_prefix(line, "   "@)) || (starts_char(line, '\t')
        && !has_prefix(line, "\t\t"@))
}

/// One line of a Taskfile: whether the following lines are in the `tasks:`
/// section, and the task this line names, if any.  Blank lines and comments
/// change nothing; an unindented line opens (`tasks:`) or closes the section;
/// inside it, a line indented by one level names a task when its name has
/// only letters, digits, `-` and `_`.
pub open spec fn task_step(in_tasks: bool, line: Seq<char>) -> (bool, Option<Seq<char>>) {
    if trim(line).len() == 0 || starts_char(trim_start(line), '#') {
        (in_tasks, None)
    } else if !starts_ws(line) {
        (trim_end(line) == "tasks:"@, None)
    } else if !in_tasks {
        (in_tasks, None)
    } else if !level_one(line) {
        (in_tasks, None)
    } else {
        let name = trim_colons(trim(line));
        if name.len() > 0 && !name.contains(' ') && all_name_chars(name, "-_"@) {
            (in_tasks, Some(name))
        } else {
            (in_tasks, None)
        }
    }
}

/// The section state after the lines, and the tasks they name in order.
pub open spec fn task_fold(ls: Seq<Seq<char>>) -> (bool, Seq<Seq<char>>)
    decreases ls.len(),
{
    if ls.len() == 0 {
        (false, Seq::empty())
    } else {
        let (st, names) = task_fold(ls.drop_last());
        let (st2, n) = task_step(st, ls.last());
        (st2, names + opt_seq(n))
    }
}

/// A line that opens or closes a section: not blank, not a comment, and not
/// indented.
pub open spec fn header_line(line: Seq<char>) -> bool {
    !(trim(line).len() == 0 || starts_char(trim_start(line), '#')) && !starts_ws(line)
}

/// The index of the nearest section line before line `i`.
pub open spec fn nearest_header(ls: Seq<Seq<char>>, i: int) -> Option<int>
    decreases i,
{
    if i <= 0 {
        None
    } else if header_line(ls[i - 1]) {
        Some(i - 1)
    } else {
        nearest_header(ls, i - 1)
    }
}

/// Line `i` lies in the `tasks:` section: the nearest section line before
/// it reads `tasks:`, trailing whitespace aside.
pub open spec fn in_tasks_section(ls: Seq<Seq<char>>, i: int) -> bool {
    match nearest_header(ls, i) {
        Some(j) => trim_end(ls[j]) == "tasks:"@,
        None => false,
    }
}

/// The line names task `s`: it is neither blank nor a comment, is indented
/// by exactly two spaces or one tab, and `s` is its text trimmed, without
/// trailing colons, non-empty, with only ASCII letters, digits, `-` and `_`.
pub open spec fn task_line(line: Seq<char>, s: Seq<char>) -> bool {
    &&& !(trim(line).len() == 0 || starts_char(trim_start(line), '#'))
    &&& level_one(line)
    &&& s == trim_colons(trim(line))
    &&& s.len() > 0
    &&& !s.contains(' ')
    &&& all_name_chars(s, "-_"@)
}

proof fn lemma_task_step_names(st: bool, line: Seq<char>, s: Seq<char>)
    ensures
        task_step(st, line).1 == Some(s) <==> st && task_line(line, s),
{
    reveal_strlit("  ");
    if level_one(line) {
        if has_prefix(line, "  "@) {
            assert(line.subrange(0, 2)[0] == ' ');
            assert(line[0] == ' ');
        }
        assert(starts_ws(line));
    }
}

proof fn lemma_task_fold_prefix(ls: Seq<Seq<char>>, i: int, s: Seq<char>)
    requires
        0 <= i <= ls.len(),
    ensures
        task_fold(ls.take(i)).0 == in_tasks_section(ls, i),
        task_fold(ls.take(i)).1.contains(s) <==> exists|j: int|
            0 <= j < i && task_line(#[trigger] ls[j], s) && in_tasks_section(ls, j),
    decreases i,
{
    if i == 0 {
        assert(ls.take(0) =~= Seq::<Seq<char>>::empty());
    } else {
        lemma_task_fold_prefix(ls, i - 1, s);
        let pre = ls.take(i);
        assert(pre.drop_last() =~= ls.take(i - 1));
        assert(pre.last() == ls[i - 1]);
        let (st, names) = task_fold(ls.take(i - 1));
        lemma_task_step_names(st, ls[i - 1], s);
        let (st2, n) = task_step(st, ls[i - 1]);
        assert(task_fold(pre) == (st2, names + opt_seq(n)));
        if exists|j: int| 0 <= j < i && task_line(#[trigger] ls[j], s) && in_tasks_section(ls, j) {
            let j = choose|j: int|
                0 <= j < i && task_line(#[trigger] ls[j], s) && in_tasks_section(ls, j);
            if j < i - 1 {
                let k = choose|k: int| 0 <= k < names.len() && names[k] == s;
                assert((names + opt_seq(n))[k] == s);
            } else {
                assert(n == Some(s));
                assert((names + opt_seq(n))[names.len() as int] == s);
            }
        }
        if (names + opt_seq(n)).contains(s) {
            let k = choose|k: int| 0 <= k < (names + opt_seq(n)).len() && (names + opt_seq(n))[k] == s;
            if k < names.len() {
                assert(names[k] == s);
                assert(names.contains(s));
            } else {
                assert(n == Some(s));
            }
        }
    }
}

/// The tasks of a Taskfile, line by line: when `tasks` holds the names
/// `parse_taskfile_tasks` returns for `text`, they are strictly increasing,
/// and a name is among them exactly when some line names it as a task
/// inside the `tasks:` section.
pub proof fn lemma_taskfile_tasks_per_line(text: Seq<char>, tasks: Seq<Seq<char>>, s: Seq<char>)
    requires
        sorted_names(tasks, task_fold(lines(text)).1),
    ensures
        crate::text::strictly_sorted(tasks),
        tasks.contains(s) <==> exists|i: int|
            0 <= i < lines(text).len() && task_line(#[trigger] lines(text)[i], s)
                && in_tasks_section(lines(text), i),
{
    let ls = lines(text);
    lemma_task_fold_prefix(ls, ls.len() as int, s);
    assert(ls.take(ls.len() as int) =~= ls);
    let cands = task_fold(ls).1;
    assert(tasks.to_set().contains(s) == cands.to_set().contains(s));
}

fn task_step_exec(in_tasks: bool, line: &Vec<char>) -> (r: (bool, Option<Vec<char>>))
    ensures
        (r.0, opt_chars(r.1)) == task_step(in_tasks, line@),
{
    let t = trim_chars(line);
    let ts = trim_start_chars(line);
    if t.len() == 0 || (ts.len() > 0 && ts[0] == '#') {
        return (in_tasks, None);
    }
    if !(line.len() > 0 && is_whitespace(line[0])) {
        let te = trim_end_chars(line);
        return (eq_str(&te, "tasks:"), None);
    }
    if !in_tasks {
        return (in_tasks, None);
    }
    let one = (starts_with_str(line, "  ") && !starts_with_str(line, "   ")) || (line.len() > 0
        && line[0] == '\t' && !starts_with_str(line, "\t\t"));
    if !one {
        return (in_tasks, None);
    }
    let name = trim_colons_exec(&t);
    let extra = chars_of("-_");
    if name.len() > 0 && !seq_contains_char(&name, ' ') && check_name_chars(&name, &extra) {
        (in_tasks, Some(name))
    } else {
        (in_tasks, None)
    }
}

/// Extract task names from Taskfile.yml text (one indent level under
/// `tasks:`): the names of [`task_fold`], sorted, each once.
pub fn parse_taskfile_tasks(text: &str) -> (tasks: Vec<String>)
    ensures
        sorted_names(string_views(tasks@), task_fold(lines(text@)).1),
{
    let t = chars_of(text);
    let ls = split_lines(&t);
    let mut out: Vec<Vec<char>> = Vec::new();
    let mut in_tasks = false;
    let mut i: usize = 0;
    assert(views(ls@).take(0) =~= Seq::<Seq<char>>::empty());
    assert(views(out@).to_set() =~= Set::empty());
    assert(task_fold(Seq::<Seq<char>>::empty()).1.to_set() =~= Set::empty());
    while i < ls.len()
        invariant
            i <= ls.len(),
            views(ls@) == lines(text@),
            in_tasks == task_fold(views(ls@).take(i as int)).0,
            sorted_names(views(out@), task_fold(views(ls@).take(i as int)).1),
        decreases ls.len() - i,
    {
        let (st, name) = task_step_exec(in_tasks, &ls[i]);
        let ghost seen = task_fold(views(ls@).take(i as int)).1;
        add_name(&mut out, name, Ghost(seen));
        assert(views(ls@).take(i + 1).drop_last() =~= views(ls@).take(i as int));
        in_tasks = st;
        i += 1;
    }
    assert(views(ls@).take(ls.len() as int) =~= views(ls@));
    strings_of(&out)
}

// ---------------------------------------------------------------------------
// Detection
// ---------------------------------------------------------------------------

/// A file found in the project directory.
pub struct ProjectFile {
    /// The file's name within the directory.
    pub name: String,
    /// Its contents, when it can be read as UTF-8 text.
    pub text: Option<String>,
}

/// A detected command: its name, shell template, source label and directory.
pub struct AutoView {
    pub name: Seq<char>,
    pub cmd: Seq<char>,
    pub source: Seq<char>,
    pub base_dir: Seq<char>,
}

/// A detected command, as built.
pub struct AutoCommand {
    pub name: String,
    pub cmd: String,
    pub source: String,
    pub base_dir: String,
}

impl View for AutoCommand {
    type V = AutoView;

    open spec fn view(&self) -> AutoView {
        AutoView { name: self.name@, cmd: self.cmd@, source: self.source@, base_dir: self.base_dir@ }
    }
}

pub open spec fn auto_views(v: Seq<AutoCommand>) -> Seq<AutoView> {
    v.map_values(|a: AutoCommand| a@)
}

/// Commands offered automatically inside a cargo project.
pub open spec fn cargo_commands() -> Seq<(Seq<char>, Seq<char>)> {
    seq![
        ("build"@, "cargo build {{args}}"@),
        ("test"@, "cargo test {{args}}"@),
        ("check"@, "cargo check {{args}}"@),
        ("clippy"@, "cargo clippy {{args}}"@),
        ("fmt"@, "cargo fmt {{args}}"@),
        ("doc"@, "cargo doc --open {{args}}"@),
        ("run"@, "cargo run {{args}}"@),
        ("bench"@, "cargo bench {{args}}"@),
        ("release"@, "cargo build --release"@),
        ("update"@, "cargo update"@),
    ]
}

/// The contents of the first file called `name`, when it is readable.
pub open spec fn file_text(files: Seq<ProjectFile>, name: Seq<char>) -> Option<Seq<char>>
    decreases files.len(),
{
    if files.len() == 0 {
        None
    } else if files[0].name@ == name {
        opt_view(files[0].text)
    } else {
        file_text(files.drop_first(), name)
    }
}

/// A file called `name` exists.
pub open spec fn file_exists(files: Seq<ProjectFile>, name: Seq<char>) -> bool {
    exists|i: int| 0 <= i < files.len() && (#[trigger] files[i]).name@ == name
}

/// The package manager, chosen by lockfile, npm by default.
pub open spec fn package_manager_of(files: Seq<ProjectFile>) -> Seq<char> {
    if file_exists(files, "pnpm-lock.yaml"@) {
        "pnpm"@
    } else if file_exists(files, "yarn.lock"@) {
        "yarn"@
    } else if file_exists(files, "bun.lockb"@) || file_exists(files, "bun.lock"@) {
        "bun"@
    } else {
        "npm"@
    }
}

/// Some project file has this name.
pub open spec fn has_file(files: Seq<ProjectFile>, name: Seq<char>) -> bool {
    exists|i: int| 0 <= i < files.len() && (#[trigger] files[i]).name@ == name
}

/// The package manager follows the lockfiles: `pnpm-lock.yaml` gives pnpm;
/// else `yarn.lock` gives yarn; else either `bun.lockb` or `bun.lock` gives
/// bun; npm is chosen exactly when none of the four lockfiles is there.
pub proof fn lemma_package_manager_by_lockfile(files: Seq<ProjectFile>)
    ensures
        has_file(files, "pnpm-lock.yaml"@) ==> package_manager_of(files) == "pnpm"@,
        !has_file(files, "pnpm-lock.yaml"@) && has_file(files, "yarn.lock"@)
            ==> package_manager_of(files) == "yarn"@,
        !has_file(files, "pnpm-lock.yaml"@) && !has_file(files, "yarn.lock"@) && (has_file(
            files,
            "bun.lockb"@,
        ) || has_file(files, "bun.lock"@)) ==> package_manager_of(files) == "bun"@,
        package_manager_of(files) == "npm"@ <==> !has_file(files, "pnpm-lock.yaml"@) && !has_file(
            files,
            "yarn.lock"@,
        ) && !has_file(files, "bun.lockb"@) && !has_file(files, "bun.lock"@),
{
    reveal_strlit("pnpm");
    reveal_strlit("yarn");
    reveal_strlit("bun");
    reveal_strlit("npm");
    assert("pnpm"@ != "npm"@) by {
        assert("pnpm"@.len() != "npm"@.len());
    }
    assert("yarn"@ != "npm"@) by {
        assert("yarn"@[0] != "npm"@[0]);
    }
    assert("bun"@ != "npm"@) by {
        assert("bun"@[0] != "npm"@[0]);
    }
}

/// The script names of a `package.json` document: the keys of its `scripts`
/// object, in the order the JSON reader yields them; none when the document
/// is not an object or has no `scripts` object.
pub open spec fn scripts_of(doc: Data) -> Seq<Seq<char>> {
    match doc {
        Data::Table(es) => match lookup(es@, "scripts"@) {
            Some(Data::Table(ss)) => ss@.map_values(|e: (String, Data)| e.0@),
            _ => Seq::empty(),
        },
        _ => Seq::empty(),
    }
}

/// The script names of the project's `package.json`, when it can be read and
/// is JSON.
pub open spec fn script_names(files: Seq<ProjectFile>) -> Seq<Seq<char>> {
    match file_text(files, "package.json"@) {
        None => Seq::empty(),
        Some(t) => match json_document(t) {
            Some(doc) => scripts_of(doc),
            None => Seq::empty(),
        },
    }
}

/// How a package script is run: npm needs `--` before forwarded arguments.
pub open spec fn script_command(pm: Seq<char>, name: Seq<char>) -> Seq<char> {
    if pm == "npm"@ {
        pm + " run "@ + name + " -- {{args}}"@
    } else {
        pm + " run "@ + name + " {{args}}"@
    }
}

/// The task runners whose files are read.
pub enum Tool {
    Make,
    Just,
    Task,
}

pub open spec fn tool_name(t: Tool) -> Seq<char> {
    match t {
        Tool::Make => "make"@,
        Tool::Just => "just"@,
        Tool::Task => "task"@,
    }
}

/// The file names a runner reads, in the order they are tried.
pub open spec fn tool_files(t: Tool) -> Seq<Seq<char>> {
    match t {
        Tool::Make => seq!["Makefile"@, "makefile"@, "GNUmakefile"@],
        Tool::Just => seq!["justfile"@, "Justfile"@, ".justfile"@],
        Tool::Task => seq!["Taskfile.yml"@, "Taskfile.yaml"@, "taskfile.yml"@],
    }
}

/// The names a runner's file defines, sorted, each once.
pub open spec fn tool_names(t: Tool, text: Seq<char>) -> Seq<Seq<char>> {
    match t {
        Tool::Make => sorted_of(make_candidates(lines(text))),
        Tool::Just => sorted_of(just_candidates(lines(text))),
        Tool::Task => sorted_of(task_fold(lines(text)).1),
    }
}

/// The contents of the first of `names` that can be read.
pub open spec fn first_readable(files: Seq<ProjectFile>, names: Seq<Seq<char>>) -> Option<
    Seq<char>,
>
    decreases names.len(),
{
    if names.len() == 0 {
        None
    } else {
        match file_text(files, names[0]) {
            Some(t) => Some(t),
            None => first_readable(files, names.drop_first()),
        }
    }
}

pub open spec fn cargo_entries(root: Seq<char>) -> Seq<AutoView> {
    cargo_commands().map_values(
        |p: (Seq<char>, Seq<char>)|
            AutoView { name: p.0, cmd: p.1, source: "auto: cargo"@, base_dir: root },
    )
}

pub open spec fn script_entries(dir: Seq<char>, files: Seq<ProjectFile>) -> Seq<AutoView> {
    script_names(files).map_values(
        |n: Seq<char>|
            AutoView {
                name: n,
                cmd: script_command(package_manager_of(files), n),
                source: "auto: package.json"@,
                base_dir: dir,
            },
    )
}

pub open spec fn tool_entries(dir: Seq<char>, files: Seq<ProjectFile>, t: Tool) -> Seq<AutoView> {
    match first_readable(files, tool_files(t)) {
        None => Seq::empty(),
        Some(text) => tool_names(t, text).map_values(
            |n: Seq<char>|
                AutoView {
                    name: n,
                    cmd: tool_name(t) + " "@ + n + " {{args}}"@,
                    source: "auto: "@ + tool_name(t),
                    base_dir: dir,
                },
        ),
    }
}

/// Every detected command, in the order they are added: cargo's (inside a
/// cargo project), package scripts, then make, just and task targets.
pub open spec fn detected(root: Option<Seq<char>>, cwd: Seq<char>, files: Seq<ProjectFile>) -> Seq<
    AutoView,
> {
    let dir = match root {
        Some(r) => r,
        None => cwd,
    };
    let cargo = match root {
        Some(r) => cargo_entries(r),
        None => Seq::empty(),
    };
    cargo + script_entries(dir, files) + tool_entries(dir, files, Tool::Make) + tool_entries(
        dir,
        files,
        Tool::Just,
    ) + tool_entries(dir, files, Tool::Task)
}

/// The command a detected entry becomes.
pub open spec fn auto_command(a: AutoView) -> CommandView {
    CommandView {
        kind: KindView::Shell(a.cmd),
        desc: None,
        env: Map::empty(),
        cwd: None,
        confirm: false,
        source: a.source,
        base_dir: Some(a.base_dir),
    }
}

/// The commands after adding the entries in order; a reserved name is
/// skipped, a repeated name takes the later entry.
pub open spec fn add_auto(c: Map<Seq<char>, CommandView>, ds: Seq<AutoView>) -> Map<
    Seq<char>,
    CommandView,
>
    decreases ds.len(),
{
    if ds.len() == 0 {
        c
    } else {
        let prev = add_auto(c, ds.drop_last());
        if reserved(ds.last().name) {
            prev
        } else {
            prev.insert(ds.last().name, auto_command(ds.last()))
        }
    }
}

/// The detected configuration: commands only, no aliases.
pub open spec fn detect_view(root: Option<Seq<char>>, cwd: Seq<char>, files: Seq<ProjectFile>) -> XconfView {
    XconfView { commands: add_auto(Map::empty(), detected(root, cwd, files)), aliases: Map::empty() }
}

proof fn lemma_add_auto_keeps_out(c: Map<Seq<char>, CommandView>, ds: Seq<AutoView>, k: Seq<char>)
    requires
        reserved(k),
        !c.contains_key(k),
    ensures
        !add_auto(c, ds).contains_key(k),
    decreases ds.len(),
{
    if ds.len() > 0 {
        lemma_add_auto_keeps_out(c, ds.drop_last(), k);
    }
}

/// Detection never defines a command under a reserved name (`x`, `alias`).
pub proof fn lemma_detect_skips_reserved(root: Option<Seq<char>>, cwd: Seq<char>, files: Seq<ProjectFile>)
    ensures
        !detect_view(root, cwd, files).commands.contains_key("x"@),
        !detect_view(root, cwd, files).commands.contains_key("alias"@),
{
    lemma_add_auto_keeps_out(Map::empty(), detected(root, cwd, files), "x"@);
    lemma_add_auto_keeps_out(Map::empty(), detected(root, cwd, files), "alias"@);
}

/// The last detected entry named `k`.
pub open spec fn last_auto(ds: Seq<AutoView>, k: Seq<char>) -> Option<AutoView>
    decreases ds.len(),
{
    if ds.len() == 0 {
        None
    } else if ds.last().name == k {
        Some(ds.last())
    } else {
        last_auto(ds.drop_last(), k)
    }
}

proof fn lemma_add_auto_at(ds: Seq<AutoView>, k: Seq<char>)
    ensures
        add_auto(Map::empty(), ds).contains_key(k) <==> !reserved(k) && last_auto(ds, k) is Some,
        add_auto(Map::empty(), ds).contains_key(k) ==> add_auto(Map::empty(), ds)[k] == auto_command(
            last_auto(ds, k)->0,
        ),
        last_auto(ds, k) is Some <==> exists|i: int| 0 <= i < ds.len() && (#[trigger] ds[i]).name == k,
        last_auto(ds, k) matches Some(a) ==> exists|i: int| 0 <= i < ds.len() && #[trigger] ds[i] == a,
    decreases ds.len(),
{
    if ds.len() > 0 {
        let dl = ds.drop_last();
        lemma_add_auto_at(dl, k);
        if exists|i: int| 0 <= i < dl.len() && (#[trigger] dl[i]).name == k {
            let i = choose|i: int| 0 <= i < dl.len() && (#[trigger] dl[i]).name == k;
            assert(ds[i] == dl[i]);
        }
        if exists|i: int| 0 <= i < ds.len() && (#[trigger] ds[i]).name == k {
            let i = choose|i: int| 0 <= i < ds.len() && (#[trigger] ds[i]).name == k;
            if i < dl.len() {
                assert(dl[i] == ds[i]);
            }
        }
        if last_auto(dl, k) is Some {
            let a = last_auto(dl, k)->0;
            let i = choose|i: int| 0 <= i < dl.len() && #[trigger] dl[i] == a;
            assert(ds[i] == dl[i]);
        }
        assert(ds[ds.len() - 1] == ds.last());
        if reserved(k) {
            lemma_add_auto_keeps_out(Map::empty(), ds, k);
        }
    }
}

/// Detection as a union: the detected configuration has no aliases; a name
/// is a command exactly when it is not reserved and some detected entry
/// (cargo's commands inside a cargo project, then the package scripts, then
/// the make, just and task targets) has it; the command is the last such
/// entry's (a later source wins on a clash): a shell command with no
/// description, environment or `cwd`, no confirmation, in the probed
/// directory.
pub proof fn lemma_detect_union(root: Option<Seq<char>>, cwd: Seq<char>, files: Seq<ProjectFile>, k: Seq<char>)
    ensures
        detect_view(root, cwd, files).aliases == Map::<Seq<char>, crate::config::AliasView>::empty(),
        detect_view(root, cwd, files).commands.contains_key(k) <==> !reserved(k) && exists|i: int|
            0 <= i < detected(root, cwd, files).len() && (#[trigger] detected(
                root,
                cwd,
                files,
            )[i]).name == k,
        detect_view(root, cwd, files).commands.contains_key(k) ==> ({
            let c = detect_view(root, cwd, files).commands[k];
            &&& c == auto_command(last_auto(detected(root, cwd, files), k)->0)
            &&& c.kind == KindView::Shell(last_auto(detected(root, cwd, files), k)->0.cmd)
            &&& !c.confirm
            &&& c.base_dir == Some(
                match root {
                    Some(r) => r,
                    None => cwd,
                },
            )
        }),
{
    let ds = detected(root, cwd, files);
    let dir = match root {
        Some(r) => r,
        None => cwd,
    };
    lemma_add_auto_at(ds, k);
    let cargo = match root {
        Some(r) => cargo_entries(r),
        None => Seq::<AutoView>::empty(),
    };
    let sc = script_entries(dir, files);
    let mk = tool_entries(dir, files, Tool::Make);
    let js = tool_entries(dir, files, Tool::Just);
    let ts = tool_entries(dir, files, Tool::Task);
    assert(ds == cargo + sc + mk + js + ts);
    assert forall|i: int| 0 <= i < ds.len() implies (#[trigger] ds[i]).base_dir == dir by {
        if i < cargo.len() {
            assert(ds[i] == cargo[i]);
        } else if i < cargo.len() + sc.len() {
            assert(ds[i] == sc[i - cargo.len()]);
        } else if i < cargo.len() + sc.len() + mk.len() {
            assert(ds[i] == mk[i - cargo.len() - sc.len()]);
        } else if i < cargo.len() + sc.len() + mk.len() + js.len() {
            assert(ds[i] == js[i - cargo.len() - sc.len() - mk.len()]);
        } else {
            assert(ds[i] == ts[i - cargo.len() - sc.len() - mk.len() - js.len()]);
        }
    }
    if last_auto(ds, k) is Some {
        let a = last_auto(ds, k)->0;
        let i = choose|i: int| 0 <= i < ds.len() && #[trigger] ds[i] == a;
        assert(ds[i].base_dir == dir);
    }
}

/// A shell command with no description, environment, `cwd` or confirmation.
pub fn shell_command(cmd: &str, source: &str, base_dir: &str) -> (c: Command)
    ensures
        c@ == auto_command(AutoView { name: Seq::empty(), cmd: cmd@, source: source@, base_dir: base_dir@ }),
{
    let c = Command {
        kind: CommandKind::Shell(cmd.to_owned()),
        desc: None,
        env: NameMap::new(),
        cwd: None,
        confirm: false,
        source: source.to_owned(),
        base_dir: Some(base_dir.to_owned()),
    };
    assert(c@.env =~= Map::<Seq<char>, Seq<char>>::empty());
    c
}

/// Adds a detected command unless its name is reserved.
pub fn insert(conf: &mut Xconf, name: &str, cmd: String, source: &str, base_dir: &str)
    ensures
        final(conf)@ == (XconfView {
            commands: if reserved(name@) {
                old(conf)@.commands
            } else {
                old(conf)@.commands.insert(
                    name@,
                    auto_command(AutoView { name: name@, cmd: cmd@, source: source@, base_dir: base_dir@ }),
                )
            },
            aliases: old(conf)@.aliases,
        }),
{
    if is_reserved(name) {
        return;
    }
    let c = shell_command(cmd.as_str(), source, base_dir);
    conf.insert_command(name.to_owned(), c);
}

fn file_text_exec<'a>(files: &'a Vec<ProjectFile>, name: &str) -> (r: Option<&'a String>)
    ensures
        opt_view(match r { Some(s) => Some(*s), None => None }) == file_text(files@, name@),
{
    let n = chars_of(name);
    let mut i: usize = 0;
    assert(files@.skip(0) =~= files@);
    while i < files.len()
        invariant
            i <= files.len(),
            n@ == name@,
            file_text(files@, name@) == file_text(files@.skip(i as int), name@),
        decreases files.len() - i,
    {
        let k = chars_of(files[i].name.as_str());
        let ghost rest = files@.skip(i as int);
        assert(rest[0] == files@[i as int]);
        if crate::text::eq_chars(&k, &n) {
            return match &files[i].text {
                Some(t) => Some(t),
                None => None,
            };
        }
        assert(rest.drop_first() =~= files@.skip(i + 1));
        i += 1;
    }
    None
}

fn file_exists_exec(files: &Vec<ProjectFile>, name: &str) -> (b: bool)
    ensures
        b == file_exists(files@, name@),
{
    let n = chars_of(name);
    let mut i: usize = 0;
    while i < files.len()
        invariant
            i <= files.len(),
            n@ == name@,
            forall|j: int| 0 <= j < i ==> (#[trigger] files@[j]).name@ != name@,
        decreases files.len() - i,
    {
        let k = chars_of(files[i].name.as_str());
        if crate::text::eq_chars(&k, &n) {
            return true;
        }
        i += 1;
    }
    false
}

/// Detect the package manager from lockfiles, defaulting to npm.
pub fn package_manager(files: &Vec<ProjectFile>) -> (pm: &'static str)
    ensures
        pm@ == package_manager_of(files@),
{
    if file_exists_exec(files, "pnpm-lock.yaml") {
        "pnpm"
    } else if file_exists_exec(files, "yarn.lock") {
        "yarn"
    } else if file_exists_exec(files, "bun.lockb") || file_exists_exec(files, "bun.lock") {
        "bun"
    } else {
        "npm"
    }
}

fn concat4(a: &str, b: &str, c: &str, d: &str) -> (s: String)
    ensures
        s@ == a@ + b@ + c@ + d@,
{
    let mut s = String::new();
    push_str(&mut s, a);
    push_str(&mut s, b);
    push_str(&mut s, c);
    push_str(&mut s, d);
    assert(s@ =~= a@ + b@ + c@ + d@);
    s
}

/// The script names of a parsed `package.json` document.
pub fn package_scripts(doc: &Data) -> (names: Vec<String>)
    ensures
        string_views(names@) == scripts_of(*doc),
{
    let empty: Vec<String> = Vec::new();
    assert(string_views(empty@) =~= Seq::<Seq<char>>::empty());
    let es = match doc {
        Data::Table(es) => es,
        _ => {
            return empty;
        },
    };
    let scripts = match crate::config::lookup_exec(es, "scripts") {
        Some(Data::Table(ss)) => ss,
        _ => {
            return empty;
        },
    };
    let ghost all = scripts@.map_values(|e: (String, Data)| e.0@);
    let mut out: Vec<String> = Vec::new();
    let mut i: usize = 0;
    while i < scripts.len()
        invariant
            i <= scripts.len(),
            all == scripts@.map_values(|e: (String, Data)| e.0@),
            string_views(out@) == all.take(i as int),
        decreases scripts.len() - i,
    {
        let ghost before = string_views(out@);
        out.push(scripts[i].0.clone());
        assert(string_views(out@) =~= before.push(all[i as int]));
        assert(all.take(i + 1) =~= all.take(i as int).push(all[i as int]));
        i += 1;
    }
    assert(all.take(scripts.len() as int) =~= all);
    out
}

fn script_names_exec(files: &Vec<ProjectFile>) -> (names: Vec<String>)
    ensures
        string_views(names@) == script_names(files@),
{
    let empty: Vec<String> = Vec::new();
    assert(string_views(empty@) =~= Seq::<Seq<char>>::empty());
    let text = match file_text_exec(files, "package.json") {
        None => {
            return empty;
        },
        Some(t) => t,
    };
    match parse_json(text.as_str()) {
        Err(_) => empty,
        Ok(doc) => package_scripts(&doc),
    }
}

/// Bridge package.json scripts as x commands.
fn script_entries_exec(dir: &str, files: &Vec<ProjectFile>) -> (r: Vec<AutoCommand>)
    ensures
        auto_views(r@) == script_entries(dir@, files@),
{
    let names = script_names_exec(files);
    let pm = package_manager(files);
    let mut out: Vec<AutoCommand> = Vec::new();
    let mut i: usize = 0;
    while i < names.len()
        invariant
            i <= names.len(),
            string_views(names@) == script_names(files@),
            pm@ == package_manager_of(files@),
            auto_views(out@) == script_entries(dir@, files@).take(i as int),
        decreases names.len() - i,
    {
        // npm requires `--` before forwarded args; pnpm/yarn/bun pass them
        // through directly.
        let cmd = if crate::text::eq_str(&chars_of(pm), "npm") {
            concat4(pm, " run ", names[i].as_str(), " -- {{args}}")
        } else {
            concat4(pm, " run ", names[i].as_str(), " {{args}}")
        };
        let ghost before = auto_views(out@);
        let ghost all = script_entries(dir@, files@);
        let a = AutoCommand {
            name: names[i].clone(),
            cmd,
            source: "auto: package.json".to_owned(),
            base_dir: dir.to_owned(),
        };
        assert(a@ == all[i as int]);
        out.push(a);
        assert(auto_views(out@) =~= before.push(all[i as int]));
        assert(all.take(i + 1) =~= all.take(i as int).push(all[i as int]));
        i += 1;
    }
    assert(script_entries(dir@, files@).take(names.len() as int) =~= script_entries(dir@, files@));
    out
}

fn tool_file(t: &Tool, i: usize) -> (name: &'static str)
    requires
        i < 3,
    ensures
        name@ == tool_files(*t)[i as int],
{
    match t {
        Tool::Make => if i == 0 {
            "Makefile"
        } else if i == 1 {
            "makefile"
        } else {
            "GNUmakefile"
        },
        Tool::Just => if i == 0 {
            "justfile"
        } else if i == 1 {
            "Justfile"
        } else {
            ".justfile"
        },
        Tool::Task => if i == 0 {
            "Taskfile.yml"
        } else if i == 1 {
            "Taskfile.yaml"
        } else {
            "taskfile.yml"
        },
    }
}

fn tool_names_exec(t: &Tool, text: &str) -> (names: Vec<String>)
    ensures
        string_views(names@) == tool_names(*t, text@),
{
    match t {
        Tool::Make => {
            let v = parse_make_targets(text);
            proof {
                lemma_sorted_of(string_views(v@), make_candidates(lines(text@)));
            }
            v
        },
        Tool::Just => {
            let v = parse_just_recipes(text);
            proof {
                lemma_sorted_of(string_views(v@), just_candidates(lines(text@)));
            }
            v
        },
        Tool::Task => {
            let v = parse_taskfile_tasks(text);
            proof {
                lemma_sorted_of(string_views(v@), task_fold(lines(text@)).1);
            }
            v
        },
    }
}

/// The targets of the first readable file of a task runner, as commands.
fn tool_entries_exec(dir: &str, files: &Vec<ProjectFile>, t: Tool) -> (r: Vec<AutoCommand>)
    ensures
        auto_views(r@) == tool_entries(dir@, files@, t),
{
    let mut k: usize = 0;
    let mut text: Option<&String> = None;
    assert(tool_files(t).len() == 3);
    assert(tool_files(t).skip(0) =~= tool_files(t));
    while k < 3 && text.is_none()
        invariant
            k <= 3,
            tool_files(t).len() == 3,
            match text {
                None => first_readable(files@, tool_files(t)) == first_readable(
                    files@,
                    tool_files(t).skip(k as int),
                ),
                Some(s) => first_readable(files@, tool_files(t)) == Some(s@),
            },
        decreases 3 - k,
    {
        let name = tool_file(&t, k);
        let ghost rest = tool_files(t).skip(k as int);
        assert(rest[0] == tool_files(t)[k as int]);
        assert(rest.drop_first() =~= tool_files(t).skip(k + 1));
        text = file_text_exec(files, name);
        k += 1;
    }
    let text = match text {
        None => {
            assert(tool_files(t).skip(3).len() == 0);
            let v: Vec<AutoCommand> = Vec::new();
            assert(auto_views(v@) =~= Seq::<AutoView>::empty());
            return v;
        },
        Some(s) => s,
    };
    let tool: &str = match t {
        Tool::Make => "make",
        Tool::Just => "just",
        Tool::Task => "task",
    };
    let names = tool_names_exec(&t, text.as_str());
    let mut source = String::new();
    push_str(&mut source, "auto: ");
    push_str(&mut source, tool);
    let mut out: Vec<AutoCommand> = Vec::new();
    let mut i: usize = 0;
    while i < names.len()
        invariant
            i <= names.len(),
            first_readable(files@, tool_files(t)) == Some(text@),
            string_views(names@) == tool_names(t, text@),
            tool@ == tool_name(t),
            source@ == Seq::<char>::empty() + "auto: "@ + tool_name(t),
            auto_views(out@) == tool_entries(dir@, files@, t).take(i as int),
        decreases names.len() - i,
    {
        let cmd = concat4(tool, " ", names[i].as_str(), " {{args}}");
        let ghost before = auto_views(out@);
        let ghost all = tool_entries(dir@, files@, t);
        let a = AutoCommand {
            name: names[i].clone(),
            cmd,
            source: source.clone(),
            base_dir: dir.to_owned(),
        };
        assert(source@ =~= "auto: "@ + tool_name(t));
        assert(a@ == all[i as int]);
        out.push(a);
        assert(auto_views(out@) =~= before.push(all[i as int]));
        assert(all.take(i + 1) =~= all.take(i as int).push(all[i as int]));
        i += 1;
    }
    assert(tool_entries(dir@, files@, t).take(names.len() as int) =~= tool_entries(dir@, files@, t));
    out
}

fn cargo_entries_exec(root: &str) -> (r: Vec<AutoCommand>)
    ensures
        auto_views(r@) == cargo_entries(root@),
{
    let table: [(&str, &str); 10] = [
        ("build", "cargo build {{args}}"),
        ("test", "cargo test {{args}}"),
        ("check", "cargo check {{args}}"),
        ("clippy", "cargo clippy {{args}}"),
        ("fmt", "cargo fmt {{args}}"),
        ("doc", "cargo doc --open {{args}}"),
        ("run", "cargo run {{args}}"),
        ("bench", "cargo bench {{args}}"),
        ("release", "cargo build --release"),
        ("update", "cargo update"),
    ];
    let ghost cs = cargo_commands();
    assert(table@.map_values(|p: (&str, &str)| (p.0@, p.1@)) =~= cs);
    let mut out: Vec<AutoCommand> = Vec::new();
    let mut i: usize = 0;
    while i < 10
        invariant
            i <= 10,
            table@.map_values(|p: (&str, &str)| (p.0@, p.1@)) == cs,
            cs == cargo_commands(),
            auto_views(out@) == cargo_entries(root@).take(i as int),
        decreases 10 - i,
    {
        let (name, cmd) = table[i];
        let ghost before = auto_views(out@);
        let ghost all = cargo_entries(root@);
        let a = AutoCommand {
            name: name.to_owned(),
            cmd: cmd.to_owned(),
            source: "auto: cargo".to_owned(),
            base_dir: root.to_owned(),
        };
        assert(table@.map_values(|p: (&str, &str)| (p.0@, p.1@))[i as int] == (name@, cmd@));
        assert(cs[i as int] == (name@, cmd@));
        assert(a@ == all[i as int]);
        out.push(a);
        assert(auto_views(out@) =~= before.push(all[i as int]));
        assert(all.take(i + 1) =~= all.take(i as int).push(all[i as int]));
        i += 1;
    }
    assert(cargo_entries(root@).take(10) =~= cargo_entries(root@));
    out
}

/// Build the detected-command layer for a project directory.
///
/// `root` is the cargo project root when inside one; everything is probed
/// in that directory, otherwise in `cwd`: `files` are the files found there.
pub fn detect(root: Option<&str>, cwd: &str, files: &Vec<ProjectFile>) -> (conf: Xconf)
    ensures
        conf@ == detect_view(
            match root {
                Some(r) => Some(r@),
                None => None,
            },
            cwd@,
            files@,
        ),
{
    let ghost rv = match root {
        Some(r) => Some(r@),
        None => None::<Seq<char>>,
    };
    let dir: &str = match root {
        Some(r) => r,
        None => cwd,
    };
    let mut all: Vec<AutoCommand> = match root {
        Some(r) => cargo_entries_exec(r),
        None => {
            let v: Vec<AutoCommand> = Vec::new();
            assert(auto_views(v@) =~= Seq::<AutoView>::empty());
            v
        },
    };
    let mut s = script_entries_exec(dir, files);
    let mut m = tool_entries_exec(dir, files, Tool::Make);
    let mut j = tool_entries_exec(dir, files, Tool::Just);
    let mut t = tool_entries_exec(dir, files, Tool::Task);
    let ghost a0 = auto_views(all@);
    let ghost s0 = auto_views(s@);
    let ghost m0 = auto_views(m@);
    let ghost j0 = auto_views(j@);
    let ghost t0 = auto_views(t@);
    all.append(&mut s);
    all.append(&mut m);
    all.append(&mut j);
    all.append(&mut t);
    let ghost ds = detected(rv, cwd@, files@);
    assert(auto_views(all@) =~= a0 + s0 + m0 + j0 + t0);
    assert(auto_views(all@) == ds);
    let mut conf = Xconf::new();
    let mut i: usize = 0;
    assert(ds.take(0) =~= Seq::<AutoView>::empty());
    while i < all.len()
        invariant
            i <= all.len(),
            auto_views(all@) == ds,
            conf@ == (XconfView { commands: add_auto(Map::empty(), ds.take(i as int)), aliases: Map::empty() }),
        decreases all.len() - i,
    {
        insert(&mut conf, all[i].name.as_str(), all[i].cmd.clone(), all[i].source.as_str(), all[i].base_dir.as_str());
        assert(ds.take(i + 1).drop_last() =~= ds.take(i as int));
        i += 1;
    }
    assert(ds.take(all.len() as int) =~= ds);
    conf
}

} // verus!
