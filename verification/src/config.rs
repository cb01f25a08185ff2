//! Command definitions and the rules for reading them from TOML tables.
use vstd::prelude::*;

use crate::data::{parse_toml_table, toml_document, Data};
use crate::name_map::NameMap;
use crate::text::{chars_of, eq_chars, eq_str, push_str, string_views};

verus! {

// ---------------------------------------------------------------------------
// Types
// ---------------------------------------------------------------------------

/// What a command runs.
#[derive(Debug)]
pub enum CommandKind {
    /// A single shell command template.
    Shell(String),
    /// A sequence of other command names, run in order, stop on failure.
    Sequence(Vec<String>),
}

#[derive(Debug)]
pub struct Command {
    pub kind: CommandKind,
    pub desc: Option<String>,
    pub env: NameMap<String>,
    /// Working directory, relative to the config file that defined it.
    pub cwd: Option<String>,
    pub confirm: bool,
    /// Human-readable label of where this command was defined.
    pub source: String,
    /// Directory of the config file that defined this command.
    pub base_dir: Option<String>,
}

#[derive(Debug)]
pub struct Alias {
    pub target: String,
    pub source: String,
}

/// All known commands and aliases, by name.
#[derive(Debug)]
pub struct Xconf {
    pub commands: NameMap<Command>,
    pub aliases: NameMap<Alias>,
}

/// A configuration file to be read: its text and where it came from.
pub struct ConfigFile {
    /// The file's path, as shown in error messages.
    pub path: String,
    /// The label recorded as the `source` of what it defines.
    pub source: String,
    /// The directory that relative `cwd`s of its commands start from.
    pub base_dir: Option<String>,
    /// The file's contents.
    pub text: String,
}

/// Why a configuration was rejected.
#[derive(Debug)]
pub enum ConfigError {
    /// A command or alias uses a reserved key.
    Reserved { key: String, source: String },
    /// The `[alias]` table is not a table of strings.
    InvalidAlias { source: String },
    /// A command definition has none of the accepted shapes.
    InvalidCommand { key: String, source: String },
    /// A command is an empty sequence.
    EmptySequence { key: String, source: String },
    /// A detailed command has both or neither of `cmd` and `seq`.
    CmdOrSeq { key: String, source: String },
    /// A file is not a TOML document of the expected shape.
    Parse { path: String },
}

// ---------------------------------------------------------------------------
// Mathematical views
// ---------------------------------------------------------------------------

pub enum KindView {
    Shell(Seq<char>),
    Sequence(Seq<Seq<char>>),
}

pub struct CommandView {
    pub kind: KindView,
    pub desc: Option<Seq<char>>,
    pub env: Map<Seq<char>, Seq<char>>,
    pub cwd: Option<Seq<char>>,
    pub confirm: bool,
    pub source: Seq<char>,
    pub base_dir: Option<Seq<char>>,
}

pub struct AliasView {
    pub target: Seq<char>,
    pub source: Seq<char>,
}

pub struct XconfView {
    pub commands: Map<Seq<char>, CommandView>,
    pub aliases: Map<Seq<char>, AliasView>,
}

pub enum ErrorView {
    Reserved { key: Seq<char>, source: Seq<char> },
    InvalidAlias { source: Seq<char> },
    InvalidCommand { key: Seq<char>, source: Seq<char> },
    EmptySequence { key: Seq<char>, source: Seq<char> },
    CmdOrSeq { key: Seq<char>, source: Seq<char> },
    Parse { path: Seq<char> },
}

/// The characters of an optional string.
pub open spec fn opt_view(o: Option<String>) -> Option<Seq<char>> {
    match o {
        Some(s) => Some(s@),
        None => None,
    }
}

/// The strings of a string map, as character sequences.
pub open spec fn text_map(m: Map<Seq<char>, String>) -> Map<Seq<char>, Seq<char>> {
    m.map_values(|s: String| s@)
}

impl View for CommandKind {
    type V = KindView;

    open spec fn view(&self) -> KindView {
        match self {
            CommandKind::Shell(s) => KindView::Shell(s@),
            CommandKind::Sequence(v) => KindView::Sequence(string_views(v@)),
        }
    }
}

impl View for Command {
    type V = CommandView;

    open spec fn view(&self) -> CommandView {
        CommandView {
            kind: self.kind@,
            desc: opt_view(self.desc),
            env: text_map(self.env@),
            cwd: opt_view(self.cwd),
            confirm: self.confirm,
            source: self.source@,
            base_dir: opt_view(self.base_dir),
        }
    }
}

impl View for Alias {
    type V = AliasView;

    open spec fn view(&self) -> AliasView {
        AliasView { target: self.target@, source: self.source@ }
    }
}

impl View for Xconf {
    type V = XconfView;

    open spec fn view(&self) -> XconfView {
        XconfView {
            commands: self.commands@.map_values(|c: Command| c@),
            aliases: self.aliases@.map_values(|a: Alias| a@),
        }
    }
}

impl View for ConfigError {
    type V = ErrorView;

    open spec fn view(&self) -> ErrorView {
        match self {
            ConfigError::Reserved { key, source } => ErrorView::Reserved {
                key: key@,
                source: source@,
            },
            ConfigError::InvalidAlias { source } => ErrorView::InvalidAlias { source: source@ },
            ConfigError::InvalidCommand { key, source } => ErrorView::InvalidCommand {
                key: key@,
                source: source@,
            },
            ConfigError::EmptySequence { key, source } => ErrorView::EmptySequence {
                key: key@,
                source: source@,
            },
            ConfigError::CmdOrSeq { key, source } => ErrorView::CmdOrSeq {
                key: key@,
                source: source@,
            },
            ConfigError::Parse { path } => ErrorView::Parse { path: path@ },
        }
    }
}

/// The empty configuration.
pub open spec fn empty_conf() -> XconfView {
    XconfView { commands: Map::empty(), aliases: Map::empty() }
}

impl Xconf {
    pub fn new() -> (c: Self)
        ensures
            c@ == empty_conf(),
    {
        let c = Xconf { commands: NameMap::new(), aliases: NameMap::new() };
        assert(c@.commands =~= Map::<Seq<char>, CommandView>::empty());
        assert(c@.aliases =~= Map::<Seq<char>, AliasView>::empty());
        c
    }

    /// No commands and no aliases.
    pub fn is_empty(&self) -> (b: bool)
        ensures
            b == (self@ == empty_conf()),
    {
        let c = self.commands.is_empty();
        let a = self.aliases.is_empty();
        proof {
            if c {
                assert(self@.commands =~= Map::<Seq<char>, CommandView>::empty());
            } else {
                assert(!(self.commands@.dom() =~= Set::<Seq<char>>::empty()));
                let k = choose|k: Seq<char>| self.commands@.dom().contains(k);
                assert(self@.commands.contains_key(k));
            }
            if a {
                assert(self@.aliases =~= Map::<Seq<char>, AliasView>::empty());
            } else {
                assert(!(self.aliases@.dom() =~= Set::<Seq<char>>::empty()));
                let k = choose|k: Seq<char>| self.aliases@.dom().contains(k);
                assert(self@.aliases.contains_key(k));
            }
        }
        c && a
    }

    /// Adds or replaces a command.
    pub fn insert_command(&mut self, name: String, command: Command)
        ensures
            final(self)@ == (XconfView {
                commands: old(self)@.commands.insert(name@, command@),
                aliases: old(self)@.aliases,
            }),
            final(self).commands.key_seq() == crate::name_map::sorted_names_of(
                final(self).commands@.dom(),
            ),
            final(self).aliases == old(self).aliases,
    {
        let ghost cv = command@;
        self.commands.insert(name, command);
        assert(self@.commands =~= old(self)@.commands.insert(name@, cv));
    }

    /// Adds or replaces an alias.
    pub fn insert_alias(&mut self, name: String, alias: Alias)
        ensures
            final(self)@ == (XconfView {
                commands: old(self)@.commands,
                aliases: old(self)@.aliases.insert(name@, alias@),
            }),
            final(self).aliases.key_seq() == crate::name_map::sorted_names_of(
                final(self).aliases@.dom(),
            ),
            final(self).commands == old(self).commands,
    {
        let ghost av = alias@;
        self.aliases.insert(name, alias);
        assert(self@.aliases =~= old(self)@.aliases.insert(name@, av));
    }
}

// ---------------------------------------------------------------------------
// Reserved keys and error messages
// ---------------------------------------------------------------------------

/// Keys that cannot be used as command or alias names.
pub open spec fn reserved(k: Seq<char>) -> bool {
    k == "x"@ || k == "alias"@
}

pub fn is_reserved(name: &str) -> (b: bool)
    ensures
        b == reserved(name@),
{
    let v = chars_of(name);
    eq_str(&v, "x") || eq_str(&v, "alias")
}

/// Rejects a reserved key.
pub fn check_reserved(key: &str, source: &str) -> (r: Result<(), ConfigError>)
    ensures
        r is Ok <==> !reserved(key@),
        r matches Err(e) ==> e@ == (ErrorView::Reserved { key: key@, source: source@ }),
{
    if is_reserved(key) {
        Err(ConfigError::Reserved { key: key.to_owned(), source: source.to_owned() })
    } else {
        Ok(())
    }
}

/// The text of an error, as the command line shows it.
pub open spec fn error_message(e: ErrorView) -> Seq<char> {
    match e {
        ErrorView::Reserved { key, source } => "command key `"@ + key + "` is reserved ("@ + source
            + ")"@,
        ErrorView::InvalidAlias { source } => "invalid [alias] table in "@ + source,
        ErrorView::InvalidCommand { key, source } => "invalid command `"@ + key + "` in "@
            + source,
        ErrorView::EmptySequence { key, source } => "command `"@ + key + "` in "@ + source
            + " is an empty sequence"@,
        ErrorView::CmdOrSeq { key, source } => "command `"@ + key + "` in "@ + source
            + " needs exactly one of `cmd` or `seq`"@,
        ErrorView::Parse { path } => "failed to parse "@ + path,
    }
}

impl ConfigError {
    /// The text of the error.
    pub fn message(&self) -> (m: String)
        ensures
            m@ == error_message(self@),
    {
        let mut m = String::new();
        match self {
            ConfigError::Reserved { key, source } => {
                push_str(&mut m, "command key `");
                push_str(&mut m, key.as_str());
                push_str(&mut m, "` is reserved (");
                push_str(&mut m, source.as_str());
                push_str(&mut m, ")");
            },
            ConfigError::InvalidAlias { source } => {
                push_str(&mut m, "invalid [alias] table in ");
                push_str(&mut m, source.as_str());
            },
            ConfigError::InvalidCommand { key, source } => {
                push_str(&mut m, "invalid command `");
                push_str(&mut m, key.as_str());
                push_str(&mut m, "` in ");
                push_str(&mut m, source.as_str());
            },
            ConfigError::EmptySequence { key, source } => {
                push_str(&mut m, "command `");
                push_str(&mut m, key.as_str());
                push_str(&mut m, "` in ");
                push_str(&mut m, source.as_str());
                push_str(&mut m, " is an empty sequence");
            },
            ConfigError::CmdOrSeq { key, source } => {
                push_str(&mut m, "command `");
                push_str(&mut m, key.as_str());
                push_str(&mut m, "` in ");
                push_str(&mut m, source.as_str());
                push_str(&mut m, " needs exactly one of `cmd` or `seq`");
            },
            ConfigError::Parse { path } => {
                push_str(&mut m, "failed to parse ");
                push_str(&mut m, path.as_str());
            },
        }
        m
    }
}

// ---------------------------------------------------------------------------
// The shapes a command definition can take
// ---------------------------------------------------------------------------

/// The text a value gives when read as a string (a date-time reads as its
/// written form).
pub open spec fn text_of(d: Data) -> Option<Seq<char>> {
    match d {
        Data::Str(s) => Some(s@),
        Data::Datetime(s) => Some(s@),
        _ => None,
    }
}

pub open spec fn all_text(v: Seq<Data>) -> bool {
    forall|i: int| 0 <= i < v.len() ==> (#[trigger] text_of(v[i])) is Some
}

pub open spec fn texts(v: Seq<Data>) -> Seq<Seq<char>> {
    Seq::new(v.len(), |i: int| text_of(v[i])->0)
}

/// An array of strings.
pub open spec fn text_list(d: Data) -> Option<Seq<Seq<char>>> {
    match d {
        Data::Array(v) => if all_text(v@) {
            Some(texts(v@))
        } else {
            None
        },
        _ => None,
    }
}

pub open spec fn all_text_values(es: Seq<(String, Data)>) -> bool {
    forall|i: int| 0 <= i < es.len() ==> (#[trigger] text_of(es[i].1)) is Some
}

pub open spec fn text_pairs(es: Seq<(String, Data)>) -> Seq<(Seq<char>, Seq<char>)> {
    Seq::new(es.len(), |i: int| (es[i].0@, text_of(es[i].1)->0))
}

/// A table of strings, as (key, value) pairs in table order.
pub open spec fn text_table(d: Data) -> Option<Seq<(Seq<char>, Seq<char>)>> {
    match d {
        Data::Table(es) => if all_text_values(es@) {
            Some(text_pairs(es@))
        } else {
            None
        },
        _ => None,
    }
}

/// The characters of (key, value) string pairs.
pub open spec fn pair_views(v: Seq<(String, String)>) -> Seq<(Seq<char>, Seq<char>)> {
    v.map_values(|p: (String, String)| (p.0@, p.1@))
}

/// The map built by inserting the pairs in order (a later key wins).
pub open spec fn pairs_map(p: Seq<(Seq<char>, Seq<char>)>) -> Map<Seq<char>, Seq<char>>
    decreases p.len(),
{
    if p.len() == 0 {
        Map::empty()
    } else {
        pairs_map(p.drop_last()).insert(p.last().0, p.last().1)
    }
}

/// The fields of the detailed form `[name] cmd = .. seq = .. ...`.
pub struct DetailedView {
    pub cmd: Option<Seq<char>>,
    pub seq: Option<Seq<Seq<char>>>,
    pub desc: Option<Seq<char>>,
    pub env: Option<Seq<(Seq<char>, Seq<char>)>>,
    pub cwd: Option<Seq<char>>,
    pub confirm: Option<bool>,
}

/// The three forms of a command definition.
pub enum RawView {
    /// `name = "shell command"`
    Simple(Seq<char>),
    /// `name = ["other", "commands"]`
    List(Seq<Seq<char>>),
    /// a table with the fields of [`DetailedView`]
    Detailed(DetailedView),
}

/// The fields a detailed command may have.
pub open spec fn detailed_field(name: Seq<char>) -> bool {
    name == "cmd"@ || name == "seq"@ || name == "desc"@ || name == "env"@ || name == "cwd"@
        || name == "confirm"@
}

/// The value of a detailed field has the field's type.
pub open spec fn field_fits(name: Seq<char>, d: Data) -> bool {
    if name == "seq"@ {
        text_list(d) is Some
    } else if name == "env"@ {
        text_table(d) is Some
    } else if name == "confirm"@ {
        d is Bool
    } else {
        text_of(d) is Some
    }
}

pub open spec fn keys_distinct(es: Seq<(String, Data)>) -> bool {
    forall|i: int, j: int|
        0 <= i < es.len() && 0 <= j < es.len() && i != j ==> (#[trigger] es[i]).0@
            != (#[trigger] es[j]).0@
}

/// The value of the first entry named `name`.
pub open spec fn lookup(es: Seq<(String, Data)>, name: Seq<char>) -> Option<Data>
    decreases es.len(),
{
    if es.len() == 0 {
        None
    } else if es[0].0@ == name {
        Some(es[0].1)
    } else {
        lookup(es.drop_first(), name)
    }
}

pub open spec fn lookup_text(es: Seq<(String, Data)>, name: Seq<char>) -> Option<Seq<char>> {
    match lookup(es, name) {
        Some(d) => text_of(d),
        None => None,
    }
}

pub open spec fn lookup_bool(es: Seq<(String, Data)>, name: Seq<char>) -> Option<bool> {
    match lookup(es, name) {
        Some(Data::Bool(b)) => Some(b),
        _ => None,
    }
}

/// A table read as the detailed form: only known fields, each once, each of
/// its type.
pub open spec fn detailed_table(es: Seq<(String, Data)>) -> Option<DetailedView> {
    if (forall|i: int|
        0 <= i < es.len() ==> detailed_field((#[trigger] es[i]).0@) && field_fits(
            es[i].0@,
            es[i].1,
        )) && keys_distinct(es) {
        Some(
            DetailedView {
                cmd: lookup_text(es, "cmd"@),
                seq: match lookup(es, "seq"@) {
                    Some(d) => text_list(d),
                    None => None,
                },
                desc: lookup_text(es, "desc"@),
                env: match lookup(es, "env"@) {
                    Some(d) => text_table(d),
                    None => None,
                },
                cwd: lookup_text(es, "cwd"@),
                confirm: lookup_bool(es, "confirm"@),
            },
        )
    } else {
        None
    }
}

/// An array read as the detailed form, one element per field in order.
pub open spec fn detailed_array(v: Seq<Data>) -> Option<DetailedView> {
    if v.len() == 6 && text_of(v[0]) is Some && text_list(v[1]) is Some && text_of(v[2]) is Some
        && text_table(v[3]) is Some && text_of(v[4]) is Some && v[5] is Bool {
        Some(
            DetailedView {
                cmd: text_of(v[0]),
                seq: text_list(v[1]),
                desc: text_of(v[2]),
                env: text_table(v[3]),
                cwd: text_of(v[4]),
                confirm: Some(v[5]->Bool_0),
            },
        )
    } else {
        None
    }
}

/// The form a value takes as a command definition; the forms are tried in
/// the order simple, list, detailed.
pub open spec fn raw_def(d: Data) -> Option<RawView> {
    if text_of(d) is Some {
        Some(RawView::Simple(text_of(d)->0))
    } else if text_list(d) is Some {
        Some(RawView::List(text_list(d)->0))
    } else {
        let det = match d {
            Data::Table(es) => detailed_table(es@),
            Data::Array(v) => detailed_array(v@),
            _ => None,
        };
        match det {
            Some(x) => Some(RawView::Detailed(x)),
            None => None,
        }
    }
}

/// The command a definition makes, or why it is rejected.
pub open spec fn command_of(
    key: Seq<char>,
    raw: RawView,
    source: Seq<char>,
    base_dir: Option<Seq<char>>,
) -> Result<CommandView, ErrorView> {
    let plain = |kind: KindView|
        CommandView {
            kind: kind,
            desc: None,
            env: Map::empty(),
            cwd: None,
            confirm: false,
            source: source,
            base_dir: base_dir,
        };
    match raw {
        RawView::Simple(s) => Ok(plain(KindView::Shell(s))),
        RawView::List(v) => if v.len() == 0 {
            Err(ErrorView::EmptySequence { key: key, source: source })
        } else {
            Ok(plain(KindView::Sequence(v)))
        },
        RawView::Detailed(d) => {
            let kind: Result<KindView, ErrorView> = match (d.cmd, d.seq) {
                (Some(c), None) => Ok(KindView::Shell(c)),
                (None, Some(v)) => if v.len() == 0 {
                    Err(ErrorView::EmptySequence { key: key, source: source })
                } else {
                    Ok(KindView::Sequence(v))
                },
                _ => Err(ErrorView::CmdOrSeq { key: key, source: source }),
            };
            match kind {
                Ok(k) => Ok(
                    CommandView {
                        kind: k,
                        desc: d.desc,
                        env: match d.env {
                            Some(p) => pairs_map(p),
                            None => Map::empty(),
                        },
                        cwd: d.cwd,
                        confirm: match d.confirm {
                            Some(b) => b,
                            None => false,
                        },
                        source: source,
                        base_dir: base_dir,
                    },
                ),
                Err(e) => Err(e),
            }
        },
    }
}

// ---------------------------------------------------------------------------
// Reading values
// ---------------------------------------------------------------------------

/// A detailed command definition, as read.
pub struct RawDetailed {
    pub cmd: Option<String>,
    pub seq: Option<Vec<String>>,
    pub desc: Option<String>,
    pub env: Option<Vec<(String, String)>>,
    pub cwd: Option<String>,
    pub confirm: Option<bool>,
}

/// A command definition in one of its three forms, as read.
pub enum RawDef {
    Simple(String),
    List(Vec<String>),
    Detailed(RawDetailed),
}

pub open spec fn opt_list_view(o: Option<Vec<String>>) -> Option<Seq<Seq<char>>> {
    match o {
        Some(v) => Some(string_views(v@)),
        None => None,
    }
}

pub open spec fn opt_pairs_view(o: Option<Vec<(String, String)>>) -> Option<
    Seq<(Seq<char>, Seq<char>)>,
> {
    match o {
        Some(v) => Some(pair_views(v@)),
        None => None,
    }
}

impl View for RawDetailed {
    type V = DetailedView;

    open spec fn view(&self) -> DetailedView {
        DetailedView {
            cmd: opt_view(self.cmd),
            seq: opt_list_view(self.seq),
            desc: opt_view(self.desc),
            env: opt_pairs_view(self.env),
            cwd: opt_view(self.cwd),
            confirm: self.confirm,
        }
    }
}

impl View for RawDef {
    type V = RawView;

    open spec fn view(&self) -> RawView {
        match self {
            RawDef::Simple(s) => RawView::Simple(s@),
            RawDef::List(v) => RawView::List(string_views(v@)),
            RawDef::Detailed(d) => RawView::Detailed(d@),
        }
    }
}

fn text_of_exec(d: &Data) -> (r: Option<String>)
    ensures
        opt_view(r) == text_of(*d),
{
    match d {
        Data::Str(s) => Some(s.clone()),
        Data::Datetime(s) => Some(s.clone()),
        _ => None,
    }
}

fn text_list_exec(d: &Data) -> (r: Option<Vec<String>>)
    ensures
        opt_list_view(r) == text_list(*d),
{
    match d {
        Data::Array(v) => {
            let mut out: Vec<String> = Vec::new();
            let mut i: usize = 0;
            while i < v.len()
                invariant
                    i <= v.len(),
                    string_views(out@) == texts(v@).take(i as int),
                    *d == Data::Array(*v),
                    forall|j: int| 0 <= j < i ==> (#[trigger] text_of(v@[j])) is Some,
                decreases v.len() - i,
            {
                match text_of_exec(&v[i]) {
                    Some(t) => {
                        let ghost before = string_views(out@);
                        out.push(t);
                        assert(string_views(out@) =~= before.push(texts(v@)[i as int]));
                        assert(texts(v@).take(i + 1) =~= texts(v@).take(i as int).push(
                            texts(v@)[i as int],
                        ));
                    },
                    None => {
                        assert(text_of(v@[i as int]) is None);
                        assert(!all_text(v@));
                        assert(*d == Data::Array(*v));
                        return None;
                    },
                }
                i += 1;
            }
            assert(texts(v@).take(v.len() as int) =~= texts(v@));
            Some(out)
        },
        _ => None,
    }
}

fn text_table_exec(d: &Data) -> (r: Option<Vec<(String, String)>>)
    ensures
        opt_pairs_view(r) == text_table(*d),
{
    match d {
        Data::Table(es) => {
            let mut out: Vec<(String, String)> = Vec::new();
            let mut i: usize = 0;
            while i < es.len()
                invariant
                    i <= es.len(),
                    pair_views(out@) == text_pairs(es@).take(i as int),
                    *d == Data::Table(*es),
                    forall|j: int| 0 <= j < i ==> (#[trigger] text_of(es@[j].1)) is Some,
                decreases es.len() - i,
            {
                match text_of_exec(&es[i].1) {
                    Some(t) => {
                        let ghost before = pair_views(out@);
                        out.push((es[i].0.clone(), t));
                        assert(pair_views(out@) =~= before.push(text_pairs(es@)[i as int]));
                        assert(text_pairs(es@).take(i + 1) =~= text_pairs(es@).take(
                            i as int,
                        ).push(text_pairs(es@)[i as int]));
                    },
                    None => {
                        assert(text_of(es@[i as int].1) is None);
                        assert(!all_text_values(es@));
                        assert(*d == Data::Table(*es));
                        return None;
                    },
                }
                i += 1;
            }
            assert(text_pairs(es@).take(es.len() as int) =~= text_pairs(es@));
            Some(out)
        },
        _ => None,
    }
}

proof fn lemma_lookup_skip(es: Seq<(String, Data)>, name: Seq<char>, i: int)
    requires
        0 <= i <= es.len(),
        forall|j: int| 0 <= j < i ==> (#[trigger] es[j]).0@ != name,
    ensures
        lookup(es, name) == lookup(es.skip(i), name),
    decreases i,
{
    if i > 0 {
        assert(es[0].0@ != name);
        assert(es.drop_first().skip(i - 1) =~= es.skip(i));
        assert forall|j: int| 0 <= j < i - 1 implies (#[trigger] es.drop_first()[j]).0@
            != name by {
            assert(es.drop_first()[j] == es[j + 1]);
        }
        lemma_lookup_skip(es.drop_first(), name, i - 1);
    } else {
        assert(es.skip(0) =~= es);
    }
}

pub(crate) fn lookup_exec<'a>(es: &'a Vec<(String, Data)>, name: &str) -> (r: Option<&'a Data>)
    ensures
        match r {
            Some(d) => lookup(es@, name@) == Some(*d),
            None => lookup(es@, name@) is None,
        },
{
    let n = chars_of(name);
    let mut i: usize = 0;
    while i < es.len()
        invariant
            i <= es.len(),
            n@ == name@,
            forall|j: int| 0 <= j < i ==> (#[trigger] es@[j]).0@ != name@,
        decreases es.len() - i,
    {
        let k = chars_of(es[i].0.as_str());
        if eq_chars(&k, &n) {
            proof {
                lemma_lookup_skip(es@, name@, i as int);
                assert(es@.skip(i as int)[0] == es@[i as int]);
            }
            return Some(&es[i].1);
        }
        i += 1;
    }
    proof {
        lemma_lookup_skip(es@, name@, i as int);
        assert(es@.skip(i as int).len() == 0);
    }
    None
}

fn detailed_field_exec(name: &str) -> (b: bool)
    ensures
        b == detailed_field(name@),
{
    let v = chars_of(name);
    eq_str(&v, "cmd") || eq_str(&v, "seq") || eq_str(&v, "desc") || eq_str(&v, "env") || eq_str(
        &v,
        "cwd",
    ) || eq_str(&v, "confirm")
}

fn field_fits_exec(name: &str, d: &Data) -> (b: bool)
    ensures
        b == field_fits(name@, *d),
{
    let v = chars_of(name);
    if eq_str(&v, "seq") {
        text_list_exec(d).is_some()
    } else if eq_str(&v, "env") {
        text_table_exec(d).is_some()
    } else if eq_str(&v, "confirm") {
        match d {
            Data::Bool(_) => true,
            _ => false,
        }
    } else {
        text_of_exec(d).is_some()
    }
}

fn keys_distinct_exec(es: &Vec<(String, Data)>) -> (b: bool)
    ensures
        b == keys_distinct(es@),
{
    let mut i: usize = 0;
    while i < es.len()
        invariant
            i <= es.len(),
            forall|a: int, b: int|
                0 <= a < i && 0 <= b < es.len() && a != b ==> (#[trigger] es@[a]).0@
                    != (#[trigger] es@[b]).0@,
        decreases es.len() - i,
    {
        let ki = chars_of(es[i].0.as_str());
        let mut j: usize = 0;
        while j < es.len()
            invariant
                i < es.len(),
                j <= es.len(),
                ki@ == es@[i as int].0@,
                forall|a: int, b: int|
                    0 <= a < i && 0 <= b < es.len() && a != b ==> (#[trigger] es@[a]).0@
                        != (#[trigger] es@[b]).0@,
                forall|b: int| 0 <= b < j && b != i ==> es@[i as int].0@ != (#[trigger] es@[b]).0@,
            decreases es.len() - j,
        {
            if j != i {
                let kj = chars_of(es[j].0.as_str());
                if eq_chars(&ki, &kj) {
                    assert(es@[i as int].0@ == es@[j as int].0@);
                    return false;
                }
            }
            j += 1;
        }
        i += 1;
    }
    true
}

fn detailed_table_exec(es: &Vec<(String, Data)>) -> (r: Option<RawDetailed>)
    ensures
        match r {
            Some(x) => detailed_table(es@) == Some(x@),
            None => detailed_table(es@) is None,
        },
{
    let mut i: usize = 0;
    while i < es.len()
        invariant
            i <= es.len(),
            forall|j: int|
                0 <= j < i ==> detailed_field((#[trigger] es@[j]).0@) && field_fits(
                    es@[j].0@,
                    es@[j].1,
                ),
        decreases es.len() - i,
    {
        if !detailed_field_exec(es[i].0.as_str()) || !field_fits_exec(es[i].0.as_str(), &es[i].1) {
            return None;
        }
        i += 1;
    }
    if !keys_distinct_exec(es) {
        return None;
    }
    let cmd = match lookup_exec(es, "cmd") {
        Some(d) => text_of_exec(d),
        None => None,
    };
    let seq = match lookup_exec(es, "seq") {
        Some(d) => text_list_exec(d),
        None => None,
    };
    let desc = match lookup_exec(es, "desc") {
        Some(d) => text_of_exec(d),
        None => None,
    };
    let env = match lookup_exec(es, "env") {
        Some(d) => text_table_exec(d),
        None => None,
    };
    let cwd = match lookup_exec(es, "cwd") {
        Some(d) => text_of_exec(d),
        None => None,
    };
    let confirm = match lookup_exec(es, "confirm") {
        Some(Data::Bool(b)) => Some(*b),
        _ => None,
    };
    Some(RawDetailed { cmd, seq, desc, env, cwd, confirm })
}

fn detailed_array_exec(v: &Vec<Data>) -> (r: Option<RawDetailed>)
    ensures
        match r {
            Some(x) => detailed_array(v@) == Some(x@),
            None => detailed_array(v@) is None,
        },
{
    if v.len() != 6 {
        return None;
    }
    let cmd = text_of_exec(&v[0]);
    let seq = text_list_exec(&v[1]);
    let desc = text_of_exec(&v[2]);
    let env = text_table_exec(&v[3]);
    let cwd = text_of_exec(&v[4]);
    let confirm = match &v[5] {
        Data::Bool(b) => Some(*b),
        _ => None,
    };
    if cmd.is_none() || seq.is_none() || desc.is_none() || env.is_none() || cwd.is_none()
        || confirm.is_none() {
        return None;
    }
    Some(RawDetailed { cmd, seq, desc, env, cwd, confirm })
}

/// Reads a value as a command definition.
pub fn raw_def_of(d: &Data) -> (r: Option<RawDef>)
    ensures
        match r {
            Some(x) => raw_def(*d) == Some(x@),
            None => raw_def(*d) is None,
        },
{
    if let Some(s) = text_of_exec(d) {
        return Some(RawDef::Simple(s));
    }
    if let Some(v) = text_list_exec(d) {
        return Some(RawDef::List(v));
    }
    let det = match d {
        Data::Table(es) => detailed_table_exec(es),
        Data::Array(v) => detailed_array_exec(v),
        _ => None,
    };
    match det {
        Some(x) => Some(RawDef::Detailed(x)),
        None => None,
    }
}

// ---------------------------------------------------------------------------
// Tables of commands
// ---------------------------------------------------------------------------

/// Adds the aliases of an `[alias]` table in order, stopping at a reserved name.
pub open spec fn apply_aliases(
    c: XconfView,
    p: Seq<(Seq<char>, Seq<char>)>,
    source: Seq<char>,
) -> (XconfView, Option<ErrorView>)
    decreases p.len(),
{
    if p.len() == 0 {
        (c, None)
    } else if reserved(p[0].0) {
        (c, Some(ErrorView::Reserved { key: p[0].0, source: source }))
    } else {
        apply_aliases(
            XconfView {
                commands: c.commands,
                aliases: c.aliases.insert(p[0].0, AliasView { target: p[0].1, source: source }),
            },
            p.drop_first(),
            source,
        )
    }
}

/// What one entry of a configuration table does to the configuration, and
/// the error it raises, if any.
pub open spec fn apply_entry(
    c: XconfView,
    key: Seq<char>,
    value: Data,
    source: Seq<char>,
    base_dir: Option<Seq<char>>,
) -> (XconfView, Option<ErrorView>) {
    if key == "alias"@ {
        match text_table(value) {
            None => (c, Some(ErrorView::InvalidAlias { source: source })),
            Some(p) => apply_aliases(c, p, source),
        }
    } else if reserved(key) {
        (c, Some(ErrorView::Reserved { key: key, source: source }))
    } else {
        match raw_def(value) {
            None => (c, Some(ErrorView::InvalidCommand { key: key, source: source })),
            Some(r) => match command_of(key, r, source, base_dir) {
                Ok(cmd) => (
                    XconfView { commands: c.commands.insert(key, cmd), aliases: c.aliases },
                    None,
                ),
                Err(e) => (c, Some(e)),
            },
        }
    }
}

/// The entries of a table applied in order; the first error stops it.
pub open spec fn apply_table(
    c: XconfView,
    t: Seq<(String, Data)>,
    source: Seq<char>,
    base_dir: Option<Seq<char>>,
) -> (XconfView, Option<ErrorView>)
    decreases t.len(),
{
    if t.len() == 0 {
        (c, None)
    } else {
        let (c1, e) = apply_entry(c, t[0].0@, t[0].1, source, base_dir);
        if e is Some {
            (c1, e)
        } else {
            apply_table(c1, t.drop_first(), source, base_dir)
        }
    }
}

fn clone_opt(o: &Option<String>) -> (r: Option<String>)
    ensures
        r == *o,
{
    match o {
        Some(s) => Some(s.clone()),
        None => None,
    }
}

/// The string map of (key, value) pairs, a later key winning.
pub fn map_of_pairs(p: &Vec<(String, String)>) -> (m: NameMap<String>)
    ensures
        text_map(m@) == pairs_map(pair_views(p@)),
{
    let mut m: NameMap<String> = NameMap::new();
    let mut i: usize = 0;
    assert(text_map(m@) =~= Map::<Seq<char>, Seq<char>>::empty());
    assert(pair_views(p@).take(0) =~= Seq::<(Seq<char>, Seq<char>)>::empty());
    while i < p.len()
        invariant
            i <= p.len(),
            text_map(m@) == pairs_map(pair_views(p@).take(i as int)),
        decreases p.len() - i,
    {
        let ghost before = m@;
        let k = p[i].0.clone();
        let v = p[i].1.clone();
        m.insert(k, v);
        assert(pair_views(p@).take(i + 1).drop_last() =~= pair_views(p@).take(i as int));
        assert(text_map(m@) =~= text_map(before).insert(p@[i as int].0@, p@[i as int].1@));
        i += 1;
    }
    assert(pair_views(p@).take(p.len() as int) =~= pair_views(p@));
    m
}

fn plain_command(kind: CommandKind, source: &str, base_dir: &Option<String>) -> (c: Command)
    ensures
        c@ == (CommandView {
            kind: kind@,
            desc: None,
            env: Map::empty(),
            cwd: None,
            confirm: false,
            source: source@,
            base_dir: opt_view(*base_dir),
        }),
{
    let c = Command {
        kind,
        desc: None,
        env: NameMap::new(),
        cwd: None,
        confirm: false,
        source: source.to_owned(),
        base_dir: clone_opt(base_dir),
    };
    assert(c@.env =~= Map::<Seq<char>, Seq<char>>::empty());
    c
}

/// The command a definition makes, or why it is rejected.
pub fn command_from(key: &str, raw: RawDef, source: &str, base_dir: &Option<String>) -> (r: Result<
    Command,
    ConfigError,
>)
    ensures
        match r {
            Ok(c) => command_of(key@, raw@, source@, opt_view(*base_dir)) == Ok::<
                CommandView,
                ErrorView,
            >(c@),
            Err(e) => command_of(key@, raw@, source@, opt_view(*base_dir)) == Err::<
                CommandView,
                ErrorView,
            >(e@),
        },
{
    let ghost rv = raw@;
    match raw {
        RawDef::Simple(s) => Ok(plain_command(CommandKind::Shell(s), source, base_dir)),
        RawDef::List(v) => {
            if v.len() == 0 {
                Err(ConfigError::EmptySequence { key: key.to_owned(), source: source.to_owned() })
            } else {
                Ok(plain_command(CommandKind::Sequence(v), source, base_dir))
            }
        },
        RawDef::Detailed(d) => {
            let kind = match (d.cmd, d.seq) {
                (Some(c), None) => CommandKind::Shell(c),
                (None, Some(v)) => {
                    if v.len() == 0 {
                        return Err(
                            ConfigError::EmptySequence {
                                key: key.to_owned(),
                                source: source.to_owned(),
                            },
                        );
                    }
                    CommandKind::Sequence(v)
                },
                _ => {
                    return Err(
                        ConfigError::CmdOrSeq { key: key.to_owned(), source: source.to_owned() },
                    );
                },
            };
            let env = match &d.env {
                Some(p) => map_of_pairs(p),
                None => {
                    let m = NameMap::new();
                    assert(text_map(m@) =~= Map::<Seq<char>, Seq<char>>::empty());
                    m
                },
            };
            let confirm = match d.confirm {
                Some(b) => b,
                None => false,
            };
            Ok(
                Command {
                    kind,
                    desc: d.desc,
                    env,
                    cwd: d.cwd,
                    confirm,
                    source: source.to_owned(),
                    base_dir: clone_opt(base_dir),
                },
            )
        },
    }
}

/// Adds the aliases of an `[alias]` table.
fn add_aliases(p: &Vec<(String, String)>, source: &str, conf: &mut Xconf) -> (r: Result<
    (),
    ConfigError,
>)
    ensures
        final(conf)@ == apply_aliases(old(conf)@, pair_views(p@), source@).0,
        match r {
            Ok(()) => apply_aliases(old(conf)@, pair_views(p@), source@).1 is None,
            Err(e) => apply_aliases(old(conf)@, pair_views(p@), source@).1 == Some(e@),
        },
{
    let ghost c0 = conf@;
    let ghost pv = pair_views(p@);
    let mut i: usize = 0;
    assert(pv.skip(0) =~= pv);
    while i < p.len()
        invariant
            i <= p.len(),
            pv == pair_views(p@),
            c0 == old(conf)@,
            apply_aliases(c0, pv, source@) == apply_aliases(conf@, pv.skip(i as int), source@),
        decreases p.len() - i,
    {
        assert(pv.skip(i as int)[0] == pv[i as int]);
        assert(pv.skip(i as int).drop_first() =~= pv.skip(i + 1));
        if let Err(e) = check_reserved(p[i].0.as_str(), source) {
            return Err(e);
        }
        let name = p[i].0.clone();
        let alias = Alias { target: p[i].1.clone(), source: source.to_owned() };
        conf.insert_alias(name, alias);
        i += 1;
    }
    assert(pv.skip(i as int).len() == 0);
    Ok(())
}

/// Applies one entry of a configuration table.
fn parse_entry(
    key: &String,
    value: &Data,
    source: &str,
    base_dir: &Option<String>,
    conf: &mut Xconf,
) -> (r: Result<(), ConfigError>)
    ensures
        final(conf)@ == apply_entry(old(conf)@, key@, *value, source@, opt_view(*base_dir)).0,
        match r {
            Ok(()) => apply_entry(old(conf)@, key@, *value, source@, opt_view(*base_dir)).1 is None,
            Err(e) => apply_entry(old(conf)@, key@, *value, source@, opt_view(*base_dir)).1
                == Some(e@),
        },
{
    let k = chars_of(key.as_str());
    if eq_str(&k, "alias") {
        match text_table_exec(value) {
            None => {
                return Err(ConfigError::InvalidAlias { source: source.to_owned() });
            },
            Some(p) => {
                return add_aliases(&p, source, conf);
            },
        }
    }
    if let Err(e) = check_reserved(key.as_str(), source) {
        return Err(e);
    }
    match raw_def_of(value) {
        None => Err(ConfigError::InvalidCommand { key: key.clone(), source: source.to_owned() }),
        Some(raw) => match command_from(key.as_str(), raw, source, base_dir) {
            Ok(command) => {
                conf.insert_command(key.clone(), command);
                Ok(())
            },
            Err(e) => Err(e),
        },
    }
}

/// Applies the entries of a configuration table in order: `[alias]` adds
/// aliases, every other key defines a command; the first error stops it.
pub fn parse_table(
    table: &Vec<(String, Data)>,
    source: &str,
    base_dir: &Option<String>,
    conf: &mut Xconf,
) -> (r: Result<(), ConfigError>)
    ensures
        final(conf)@ == apply_table(old(conf)@, table@, source@, opt_view(*base_dir)).0,
        match r {
            Ok(()) => apply_table(old(conf)@, table@, source@, opt_view(*base_dir)).1 is None,
            Err(e) => apply_table(old(conf)@, table@, source@, opt_view(*base_dir)).1 == Some(
                e@,
            ),
        },
{
    let ghost c0 = conf@;
    let ghost b = opt_view(*base_dir);
    let mut i: usize = 0;
    assert(table@.skip(0) =~= table@);
    while i < table.len()
        invariant
            i <= table.len(),
            b == opt_view(*base_dir),
            c0 == old(conf)@,
            apply_table(c0, table@, source@, b) == apply_table(
                conf@,
                table@.skip(i as int),
                source@,
                b,
            ),
        decreases table.len() - i,
    {
        assert(table@.skip(i as int)[0] == table@[i as int]);
        assert(table@.skip(i as int).drop_first() =~= table@.skip(i + 1));
        if let Err(e) = parse_entry(&table[i].0, &table[i].1, source, base_dir, conf) {
            return Err(e);
        }
        i += 1;
    }
    assert(table@.skip(i as int).len() == 0);
    Ok(())
}

// ---------------------------------------------------------------------------
// Configuration files
// ---------------------------------------------------------------------------

/// What a configuration file does to the configuration: its table applied,
/// or a parse error when it is not TOML.
pub open spec fn file_effect(c: XconfView, f: ConfigFile) -> (XconfView, Option<ErrorView>) {
    match toml_document(f.text@) {
        None => (c, Some(ErrorView::Parse { path: f.path@ })),
        Some(t) => apply_table(c, t, f.source@, opt_view(f.base_dir)),
    }
}

/// Files applied in order; the first error stops it.
pub open spec fn files_effect(c: XconfView, fs: Seq<ConfigFile>) -> (XconfView, Option<ErrorView>)
    decreases fs.len(),
{
    if fs.len() == 0 {
        (c, None)
    } else {
        let (c1, e) = file_effect(c, fs[0]);
        if e is Some {
            (c1, e)
        } else {
            files_effect(c1, fs.drop_first())
        }
    }
}

/// Reads one configuration file into `conf`.
pub fn load_x_file(file: &ConfigFile, conf: &mut Xconf) -> (r: Result<(), ConfigError>)
    ensures
        final(conf)@ == file_effect(old(conf)@, *file).0,
        match r {
            Ok(()) => file_effect(old(conf)@, *file).1 is None,
            Err(e) => file_effect(old(conf)@, *file).1 == Some(e@),
        },
{
    match parse_toml_table(file.text.as_str()) {
        Err(_) => Err(ConfigError::Parse { path: file.path.clone() }),
        Ok(table) => parse_table(&table, file.source.as_str(), &file.base_dir, conf),
    }
}

/// Reads configuration files in order into `conf`; later files override
/// earlier ones on the same key.
pub fn load_files(files: &Vec<ConfigFile>, conf: &mut Xconf) -> (r: Result<(), ConfigError>)
    ensures
        final(conf)@ == files_effect(old(conf)@, files@).0,
        match r {
            Ok(()) => files_effect(old(conf)@, files@).1 is None,
            Err(e) => files_effect(old(conf)@, files@).1 == Some(e@),
        },
{
    let ghost c0 = conf@;
    let mut i: usize = 0;
    assert(files@.skip(0) =~= files@);
    while i < files.len()
        invariant
            i <= files.len(),
            c0 == old(conf)@,
            files_effect(c0, files@) == files_effect(conf@, files@.skip(i as int)),
        decreases files.len() - i,
    {
        assert(files@.skip(i as int)[0] == files@[i as int]);
        assert(files@.skip(i as int).drop_first() =~= files@.skip(i + 1));
        if let Err(e) = load_x_file(&files[i], conf) {
            return Err(e);
        }
        i += 1;
    }
    assert(files@.skip(i as int).len() == 0);
    Ok(())
}

/// The files that are given, home first.
pub open spec fn present_files(home: Option<ConfigFile>, root: Option<ConfigFile>) -> Seq<ConfigFile> {
    match (home, root) {
        (Some(h), Some(p)) => seq![h, p],
        (Some(h), None) => seq![h],
        (None, Some(p)) => seq![p],
        (None, None) => Seq::<ConfigFile>::empty(),
    }
}

/// The configuration from the home file (`~/.x.toml`) and the project file
/// (`x.toml` at the project root), each given only when it exists; the
/// project file wins on shared keys.
pub fn get_from(home: Option<ConfigFile>, root: Option<ConfigFile>) -> (r: Result<
    Xconf,
    ConfigError,
>)
    ensures
        match r {
            Ok(c) => files_effect(empty_conf(), present_files(home, root)) == (
                c@,
                None::<ErrorView>,
            ),
            Err(e) => files_effect(empty_conf(), present_files(home, root)).1 == Some(e@),
        },
{
    let ghost fs = present_files(home, root);
    let mut files: Vec<ConfigFile> = Vec::new();
    if let Some(h) = home {
        files.push(h);
    }
    if let Some(p) = root {
        files.push(p);
    }
    assert(files@ =~= fs);
    let mut conf = Xconf::new();
    match load_files(&files, &mut conf) {
        Ok(()) => Ok(conf),
        Err(e) => Err(e),
    }
}

// ---------------------------------------------------------------------------
// `[package.metadata.x]` in a Cargo manifest
// ---------------------------------------------------------------------------

/// The label recorded for commands defined in the manifest.
pub open spec fn manifest_source() -> Seq<char> {
    "Cargo.toml [package.metadata.x]"@
}

/// The key under which a TOML reader hands a date-time read as a table.
pub open spec fn datetime_key() -> Seq<char> {
    "$__toml_private_datetime"@
}

/// Some key occurs twice in the table.
pub open spec fn repeated(es: Seq<(String, Data)>, name: Seq<char>) -> bool {
    exists|i: int, j: int|
        0 <= i < j < es.len() && (#[trigger] es[i]).0@ == name && (#[trigger] es[j]).0@ == name
}

/// A struct field read from a table: absent, present, or an error when it
/// is given twice.
pub open spec fn table_field(es: Seq<(String, Data)>, name: Seq<char>) -> Result<
    Option<Data>,
    (),
> {
    if repeated(es, name) {
        Err(())
    } else {
        Ok(lookup(es, name))
    }
}

/// The one field of a one-field struct read from a value: a table gives it
/// by name, an array by position, a date-time gives none.
pub open spec fn struct_field(d: Data, name: Seq<char>) -> Result<Option<Data>, ()> {
    match d {
        Data::Table(es) => table_field(es@, name),
        Data::Array(v) => if v.len() == 0 {
            Err(())
        } else {
            Ok(Some(v@[0]))
        },
        Data::Datetime(_) => Ok(None),
        _ => Err(()),
    }
}

/// The `x` table of a manifest.
pub enum MetadataTable {
    /// A table of definitions.
    Entries(Seq<(String, Data)>),
    /// A date-time, read as a one-entry table holding its text.
    Stamp(Seq<char>),
}

/// `package.metadata.x` of a manifest document: absent, a table, or an error
/// when a level has the wrong shape.
pub open spec fn manifest_x(doc: Seq<(String, Data)>) -> Result<Option<MetadataTable>, ()> {
    match table_field(doc, "package"@) {
        Err(()) => Err(()),
        Ok(None) => Ok(None),
        Ok(Some(p)) => match struct_field(p, "metadata"@) {
            Err(()) => Err(()),
            Ok(None) => Ok(None),
            Ok(Some(m)) => match struct_field(m, "x"@) {
                Err(()) => Err(()),
                Ok(None) => Ok(None),
                Ok(Some(Data::Table(es))) => Ok(Some(MetadataTable::Entries(es@))),
                Ok(Some(Data::Datetime(s))) => Ok(Some(MetadataTable::Stamp(s@))),
                Ok(Some(_)) => Err(()),
            },
        },
    }
}

/// The command a date-time `x` value becomes: its text, run as a shell command.
pub open spec fn stamp_command(s: Seq<char>, root: Seq<char>) -> CommandView {
    CommandView {
        kind: KindView::Shell(s),
        desc: None,
        env: Map::empty(),
        cwd: None,
        confirm: false,
        source: manifest_source(),
        base_dir: Some(root),
    }
}

/// What a parsed manifest document does to the configuration.
pub open spec fn manifest_doc_effect(
    c: XconfView,
    path: Seq<char>,
    doc: Seq<(String, Data)>,
    root: Seq<char>,
) -> (XconfView, Option<ErrorView>) {
    match manifest_x(doc) {
        Err(()) => (c, Some(ErrorView::Parse { path: path })),
        Ok(None) => (c, None),
        Ok(Some(MetadataTable::Entries(es))) => apply_table(
            c,
            es,
            manifest_source(),
            Some(root),
        ),
        Ok(Some(MetadataTable::Stamp(s))) => (
            XconfView {
                commands: c.commands.insert(datetime_key(), stamp_command(s, root)),
                aliases: c.aliases,
            },
            None,
        ),
    }
}

/// What a manifest does to the configuration: a parse error when it is not
/// TOML, else what its document does.
pub open spec fn manifest_effect(
    c: XconfView,
    path: Seq<char>,
    text: Seq<char>,
    root: Seq<char>,
) -> (XconfView, Option<ErrorView>) {
    match toml_document(text) {
        None => (c, Some(ErrorView::Parse { path: path })),
        Some(doc) => manifest_doc_effect(c, path, doc, root),
    }
}

fn repeated_exec(es: &Vec<(String, Data)>, name: &str) -> (b: bool)
    ensures
        b == repeated(es@, name@),
{
    let n = chars_of(name);
    let mut seen = false;
    let mut first: usize = 0;
    let mut i: usize = 0;
    while i < es.len()
        invariant
            i <= es.len(),
            n@ == name@,
            seen ==> first < i && es@[first as int].0@ == name@,
            !seen ==> forall|j: int| 0 <= j < i ==> (#[trigger] es@[j]).0@ != name@,
            forall|a: int, b: int|
                0 <= a < b < i ==> !((#[trigger] es@[a]).0@ == name@ && (#[trigger] es@[b]).0@
                    == name@),
        decreases es.len() - i,
    {
        let k = chars_of(es[i].0.as_str());
        if eq_chars(&k, &n) {
            if seen {
                assert(es@[first as int].0@ == name@ && es@[i as int].0@ == name@);
                return true;
            }
            seen = true;
            first = i;
        }
        i += 1;
    }
    false
}

/// Reads `package.metadata.x` of a manifest document.
fn manifest_x_exec<'a>(doc: &'a Vec<(String, Data)>) -> (r: Result<Option<&'a Data>, ()>)
    ensures
        match r {
            Err(()) => manifest_x(doc@) is Err,
            Ok(None) => manifest_x(doc@) == Ok::<Option<MetadataTable>, ()>(None),
            Ok(Some(Data::Table(es))) => manifest_x(doc@) == Ok::<Option<MetadataTable>, ()>(
                Some(MetadataTable::Entries(es@)),
            ),
            Ok(Some(Data::Datetime(s))) => manifest_x(doc@) == Ok::<Option<MetadataTable>, ()>(
                Some(MetadataTable::Stamp(s@)),
            ),
            Ok(Some(_)) => false,
        },
{
    if repeated_exec(doc, "package") {
        return Err(());
    }
    let p = match lookup_exec(doc, "package") {
        None => {
            return Ok(None);
        },
        Some(p) => p,
    };
    let m = match struct_field_exec(p, "metadata") {
        Err(()) => {
            return Err(());
        },
        Ok(None) => {
            return Ok(None);
        },
        Ok(Some(m)) => m,
    };
    let x = match struct_field_exec(m, "x") {
        Err(()) => {
            return Err(());
        },
        Ok(None) => {
            return Ok(None);
        },
        Ok(Some(x)) => x,
    };
    match x {
        Data::Table(_) => Ok(Some(x)),
        Data::Datetime(_) => Ok(Some(x)),
        _ => Err(()),
    }
}

fn struct_field_exec<'a>(d: &'a Data, name: &str) -> (r: Result<Option<&'a Data>, ()>)
    ensures
        match r {
            Err(()) => struct_field(*d, name@) is Err,
            Ok(None) => struct_field(*d, name@) == Ok::<Option<Data>, ()>(None),
            Ok(Some(x)) => struct_field(*d, name@) == Ok::<Option<Data>, ()>(Some(*x)),
        },
{
    match d {
        Data::Table(es) => {
            if repeated_exec(es, name) {
                Err(())
            } else {
                Ok(lookup_exec(es, name))
            }
        },
        Data::Array(v) => {
            if v.len() == 0 {
                Err(())
            } else {
                Ok(Some(&v[0]))
            }
        },
        Data::Datetime(_) => Ok(None),
        _ => Err(()),
    }
}

/// Applies `[package.metadata.x]` of a parsed manifest document (the
/// manifest at `path`, in the project directory `root`) to `conf`.
pub fn apply_manifest(path: &str, doc: &Vec<(String, Data)>, root: &str, conf: &mut Xconf) -> (r:
    Result<(), ConfigError>)
    ensures
        final(conf)@ == manifest_doc_effect(old(conf)@, path@, doc@, root@).0,
        match r {
            Ok(()) => manifest_doc_effect(old(conf)@, path@, doc@, root@).1 is None,
            Err(e) => manifest_doc_effect(old(conf)@, path@, doc@, root@).1 == Some(e@),
        },
{
    let base = Some(root.to_owned());
    match manifest_x_exec(doc) {
        Err(()) => Err(ConfigError::Parse { path: path.to_owned() }),
        Ok(None) => Ok(()),
        Ok(Some(Data::Table(es))) => parse_table(es, "Cargo.toml [package.metadata.x]", &base, conf),
        Ok(Some(Data::Datetime(s))) => {
            let command = plain_command(
                CommandKind::Shell(s.clone()),
                "Cargo.toml [package.metadata.x]",
                &base,
            );
            conf.insert_command("$__toml_private_datetime".to_owned(), command);
            Ok(())
        },
        Ok(Some(_)) => Err(ConfigError::Parse { path: path.to_owned() }),
    }
}

/// Reads `[package.metadata.x]` of the manifest at `path`, whose text is
/// `text`, in the project directory `root`.
pub fn load_cargo_metadata(path: &str, text: &str, root: &str, conf: &mut Xconf) -> (r: Result<
    (),
    ConfigError,
>)
    ensures
        final(conf)@ == manifest_effect(old(conf)@, path@, text@, root@).0,
        match r {
            Ok(()) => manifest_effect(old(conf)@, path@, text@, root@).1 is None,
            Err(e) => manifest_effect(old(conf)@, path@, text@, root@).1 == Some(e@),
        },
{
    match parse_toml_table(text) {
        Err(_) => Err(ConfigError::Parse { path: path.to_owned() }),
        Ok(doc) => apply_manifest(path, &doc, root, conf),
    }
}

// ---------------------------------------------------------------------------
// Layers
// ---------------------------------------------------------------------------

/// The directories walked up from the current one, stopping before the
/// project root (all of them when there is no root or it is never reached).
pub open spec fn before_root<T>(
    ancestors: Seq<(String, Option<T>)>,
    root: Option<Seq<char>>,
) -> Seq<(String, Option<T>)>
    decreases ancestors.len(),
{
    if ancestors.len() == 0 || root == Some(ancestors[0].0@) {
        Seq::empty()
    } else {
        seq![ancestors[0]] + before_root(ancestors.drop_first(), root)
    }
}

/// The `x.toml` files of the directories, farthest first, nearest last.
pub open spec fn files_nearest_last<T>(dirs: Seq<(String, Option<T>)>) -> Seq<T>
    decreases dirs.len(),
{
    if dirs.len() == 0 {
        Seq::empty()
    } else {
        crate::text::opt_seq(dirs.last().1) + files_nearest_last(dirs.drop_last())
    }
}

/// The `x.toml` files found walking up from the current directory, below the
/// project root, so that the nearest one is read last.
pub open spec fn walked_spec<T>(
    ancestors: Seq<(String, Option<T>)>,
    root: Option<Seq<char>>,
) -> Seq<T> {
    files_nearest_last(before_root(ancestors, root))
}

proof fn lemma_before_root_prefix<T>(
    ancestors: Seq<(String, Option<T>)>,
    root: Option<Seq<char>>,
    i: int,
)
    requires
        0 <= i <= ancestors.len(),
        forall|j: int| 0 <= j < i ==> root != Some(#[trigger] ancestors[j].0@),
    ensures
        before_root(ancestors, root) == ancestors.take(i) + before_root(ancestors.skip(i), root),
    decreases i,
{
    if i == 0 {
        assert(ancestors.skip(0) =~= ancestors);
        assert(ancestors.take(0) + before_root(ancestors, root) =~= before_root(ancestors, root));
    } else {
        let rest = ancestors.drop_first();
        assert forall|j: int| 0 <= j < i - 1 implies root != Some(#[trigger] rest[j].0@) by {
            assert(rest[j] == ancestors[j + 1]);
        }
        lemma_before_root_prefix(rest, root, i - 1);
        assert(rest.skip(i - 1) =~= ancestors.skip(i));
        assert(ancestors.take(i) =~= seq![ancestors[0]] + rest.take(i - 1));
    }
}

/// The `x.toml` files of `ancestors` (each directory from the current one
/// upward, with its `x.toml` when it has one) up to, not including, the
/// project root, reversed so that the nearest file comes last. Nothing of a
/// file is looked at, so the files may be given as paths, to be read after.
pub fn walked_files<T>(ancestors: Vec<(String, Option<T>)>, root: Option<&str>) -> (fs: Vec<T>)
    ensures
        fs@ == walked_spec(
            ancestors@,
            match root {
                Some(r) => Some(r@),
                None => None,
            },
        ),
{
    let ghost rv = match root {
        Some(r) => Some(r@),
        None => None::<Seq<char>>,
    };
    let ghost all = ancestors@;
    let mut n: usize = 0;
    let mut stop = false;
    while n < ancestors.len() && !stop
        invariant
            n <= ancestors.len(),
            all == ancestors@,
            rv == match root {
                Some(r) => Some(r@),
                None => None::<Seq<char>>,
            },
            forall|j: int| 0 <= j < n ==> rv != Some(#[trigger] all[j].0@),
            stop ==> n < ancestors.len() && rv == Some(all[n as int].0@),
        decreases ancestors.len() - n + if stop { 0int } else { 1int },
    {
        let hit = match root {
            Some(r) => crate::text::eq_chars(&chars_of(ancestors[n].0.as_str()), &chars_of(r)),
            None => false,
        };
        if hit {
            stop = true;
        } else {
            n += 1;
        }
    }
    proof {
        lemma_before_root_prefix(all, rv, n as int);
        let rest = all.skip(n as int);
        if rest.len() > 0 {
            assert(rest[0] == all[n as int]);
        }
        assert(before_root(rest, rv) =~= Seq::<(String, Option<T>)>::empty());
        assert(before_root(all, rv) =~= all.take(n as int));
    }
    let mut dirs = ancestors;
    dirs.truncate(n);
    assert(dirs@ =~= all.take(n as int));
    let mut out: Vec<T> = Vec::new();
    while dirs.len() > 0
        invariant
            files_nearest_last(all.take(n as int)) == out@ + files_nearest_last(dirs@),
        decreases dirs.len(),
    {
        let ghost before = dirs@;
        let (_, file) = dirs.pop().unwrap();
        assert(dirs@ =~= before.drop_last());
        match file {
            Some(f) => {
                out.push(f);
            },
            None => {},
        }
        assert(out@ + files_nearest_last(dirs@) =~= files_nearest_last(all.take(n as int)));
    }
    assert(out@ + files_nearest_last(dirs@) =~= out@);
    out
}

/// The configuration files in the order they are read: `~/.x.toml`, the
/// root `x.toml`, then the walked files, nearest last.
pub fn config_layers(home: Option<ConfigFile>, root: Option<ConfigFile>, walked: Vec<ConfigFile>) -> (fs:
    Vec<ConfigFile>)
    ensures
        fs@ == present_files(home, root) + walked@,
{
    let ghost w = walked@;
    let mut files: Vec<ConfigFile> = Vec::new();
    if let Some(h) = home {
        files.push(h);
    }
    if let Some(p) = root {
        files.push(p);
    }
    assert(files@ =~= present_files(home, root));
    let mut rest = walked;
    files.append(&mut rest);
    assert(files@ =~= present_files(home, root) + w);
    files
}

/// A manifest to read: its path, its text, and the project directory.
pub open spec fn manifest_view(m: Option<(String, String, String)>) -> Option<
    (Seq<char>, Seq<char>, Seq<char>),
> {
    match m {
        Some((p, t, r)) => Some((p@, t@, r@)),
        None => None,
    }
}

/// All layers over `c`: the files in order, then the manifest; the first
/// error stops it.
pub open spec fn layers_effect(
    c: XconfView,
    fs: Seq<ConfigFile>,
    manifest: Option<(Seq<char>, Seq<char>, Seq<char>)>,
) -> (XconfView, Option<ErrorView>) {
    let (c1, e) = files_effect(c, fs);
    if e is Some {
        (c1, e)
    } else {
        match manifest {
            None => (c1, None),
            Some((p, t, r)) => manifest_effect(c1, p, t, r),
        }
    }
}

/// Reads the configuration layers over the detected commands: the files in
/// order, then `[package.metadata.x]` of the manifest, when there is one.
pub fn load_layers(
    detected: Xconf,
    files: &Vec<ConfigFile>,
    manifest: Option<(String, String, String)>,
) -> (r: Result<Xconf, ConfigError>)
    ensures
        match r {
            Ok(c) => layers_effect(detected@, files@, manifest_view(manifest)) == (
                c@,
                None::<ErrorView>,
            ),
            Err(e) => layers_effect(detected@, files@, manifest_view(manifest)).1 == Some(e@),
        },
{
    let mut conf = detected;
    match load_files(files, &mut conf) {
        Err(e) => {
            return Err(e);
        },
        Ok(()) => {},
    }
    match manifest {
        None => Ok(conf),
        Some((path, text, root)) => match load_cargo_metadata(
            path.as_str(),
            text.as_str(),
            root.as_str(),
            &mut conf,
        ) {
            Ok(()) => Ok(conf),
            Err(e) => Err(e),
        },
    }
}

// ---------------------------------------------------------------------------
// Laws
// ---------------------------------------------------------------------------

/// The command defined under `k`, if any.
pub open spec fn command_at(c: XconfView, k: Seq<char>) -> Option<CommandView> {
    if c.commands.contains_key(k) {
        Some(c.commands[k])
    } else {
        None
    }
}

/// The value of the last entry of the table named `k`.
pub open spec fn last_def(t: Seq<(String, Data)>, k: Seq<char>) -> Option<Data>
    decreases t.len(),
{
    if t.len() == 0 {
        None
    } else {
        match last_def(t.drop_first(), k) {
            Some(v) => Some(v),
            None => if t[0].0@ == k {
                Some(t[0].1)
            } else {
                None
            },
        }
    }
}

/// The command a successfully read definition makes.
pub open spec fn defined_command(
    k: Seq<char>,
    v: Data,
    source: Seq<char>,
    base_dir: Option<Seq<char>>,
) -> CommandView {
    command_of(k, raw_def(v)->0, source, base_dir)->Ok_0
}

proof fn lemma_aliases_keep_commands(c: XconfView, p: Seq<(Seq<char>, Seq<char>)>, s: Seq<char>)
    ensures
        apply_aliases(c, p, s).0.commands == c.commands,
    decreases p.len(),
{
    if p.len() > 0 && !reserved(p[0].0) {
        lemma_aliases_keep_commands(
            XconfView {
                commands: c.commands,
                aliases: c.aliases.insert(p[0].0, AliasView { target: p[0].1, source: s }),
            },
            p.drop_first(),
            s,
        );
    }
}

/// When a table is read without error, the command under a name is the
/// one its last definition in the table makes; a name the table does not
/// define keeps the command it had.
pub proof fn lemma_last_definition_wins(
    c: XconfView,
    t: Seq<(String, Data)>,
    source: Seq<char>,
    base_dir: Option<Seq<char>>,
    k: Seq<char>,
)
    requires
        apply_table(c, t, source, base_dir).1 is None,
        k != "alias"@,
    ensures
        command_at(apply_table(c, t, source, base_dir).0, k) == match last_def(t, k) {
            Some(v) => Some(defined_command(k, v, source, base_dir)),
            None => command_at(c, k),
        },
    decreases t.len(),
{
    if t.len() > 0 {
        let (c1, e) = apply_entry(c, t[0].0@, t[0].1, source, base_dir);
        assert(e is None);
        lemma_last_definition_wins(c1, t.drop_first(), source, base_dir, k);
        let key = t[0].0@;
        if key == "alias"@ {
            lemma_aliases_keep_commands(c, text_table(t[0].1)->0, source);
            assert(command_at(c1, k) == command_at(c, k));
            assert(key != k);
        } else {
            if key == k {
                assert(command_at(c1, k) == Some(defined_command(k, t[0].1, source, base_dir)));
            } else {
                assert(command_at(c1, k) == command_at(c, k));
            }
        }
    }
}

/// The alias defined under `n`, if any.
pub open spec fn alias_at(c: XconfView, n: Seq<char>) -> Option<AliasView> {
    if c.aliases.contains_key(n) {
        Some(c.aliases[n])
    } else {
        None
    }
}

/// The target of the last pair naming `n`.
pub open spec fn last_pair(p: Seq<(Seq<char>, Seq<char>)>, n: Seq<char>) -> Option<Seq<char>>
    decreases p.len(),
{
    if p.len() == 0 {
        None
    } else {
        match last_pair(p.drop_first(), n) {
            Some(t) => Some(t),
            None => if p[0].0 == n {
                Some(p[0].1)
            } else {
                None
            },
        }
    }
}

/// The alias target a table gives `n`: the last one among its `[alias]`
/// tables.
pub open spec fn alias_def(t: Seq<(String, Data)>, n: Seq<char>) -> Option<Seq<char>>
    decreases t.len(),
{
    if t.len() == 0 {
        None
    } else {
        match alias_def(t.drop_first(), n) {
            Some(x) => Some(x),
            None => if t[0].0@ == "alias"@ {
                match text_table(t[0].1) {
                    Some(p) => last_pair(p, n),
                    None => None,
                }
            } else {
                None
            },
        }
    }
}

proof fn lemma_alias_pairs(c: XconfView, p: Seq<(Seq<char>, Seq<char>)>, source: Seq<char>, n: Seq<char>)
    requires
        apply_aliases(c, p, source).1 is None,
    ensures
        alias_at(apply_aliases(c, p, source).0, n) == match last_pair(p, n) {
            Some(x) => Some(AliasView { target: x, source: source }),
            None => alias_at(c, n),
        },
    decreases p.len(),
{
    if p.len() > 0 {
        let c1 = XconfView {
            commands: c.commands,
            aliases: c.aliases.insert(p[0].0, AliasView { target: p[0].1, source: source }),
        };
        lemma_alias_pairs(c1, p.drop_first(), source, n);
    }
}

/// When a table is read without error, the alias under a name is the one
/// the last `[alias]` entry naming it gives, with the table's source; a name
/// no `[alias]` entry gives keeps the alias it had.
pub proof fn lemma_alias_definitions(
    c: XconfView,
    t: Seq<(String, Data)>,
    source: Seq<char>,
    base_dir: Option<Seq<char>>,
    n: Seq<char>,
)
    requires
        apply_table(c, t, source, base_dir).1 is None,
    ensures
        alias_at(apply_table(c, t, source, base_dir).0, n) == match alias_def(t, n) {
            Some(x) => Some(AliasView { target: x, source: source }),
            None => alias_at(c, n),
        },
    decreases t.len(),
{
    if t.len() > 0 {
        let (c1, e) = apply_entry(c, t[0].0@, t[0].1, source, base_dir);
        assert(e is None);
        lemma_alias_definitions(c1, t.drop_first(), source, base_dir, n);
        if t[0].0@ == "alias"@ {
            lemma_alias_pairs(c, text_table(t[0].1)->0, source, n);
        } else {
            assert(c1.aliases == c.aliases);
        }
    }
}

proof fn lemma_last_def_ok(
    c: XconfView,
    t: Seq<(String, Data)>,
    source: Seq<char>,
    base_dir: Option<Seq<char>>,
    k: Seq<char>,
)
    requires
        apply_table(c, t, source, base_dir).1 is None,
        last_def(t, k) is Some,
        k != "alias"@,
    ensures
        raw_def(last_def(t, k)->0) is Some,
        command_of(k, raw_def(last_def(t, k)->0)->0, source, base_dir) is Ok,
    decreases t.len(),
{
    let (c1, e) = apply_entry(c, t[0].0@, t[0].1, source, base_dir);
    assert(e is None);
    if last_def(t.drop_first(), k) is Some {
        lemma_last_def_ok(c1, t.drop_first(), source, base_dir, k);
    }
}

/// A command asks before running only when its definition says so: when a
/// table is read without error, the command under a name has its confirm
/// flag set exactly when the name's (last) definition is a table with
/// `confirm = true` (or the six-field array form ending in `true`); a table
/// without `confirm`, a string and a list of names all make commands that
/// run without asking.
pub proof fn lemma_confirm_only_when_asked(
    c: XconfView,
    t: Seq<(String, Data)>,
    source: Seq<char>,
    base_dir: Option<Seq<char>>,
    k: Seq<char>,
)
    requires
        apply_table(c, t, source, base_dir).1 is None,
        last_def(t, k) is Some,
        k != "alias"@,
    ensures
        command_at(apply_table(c, t, source, base_dir).0, k) is Some,
        command_at(apply_table(c, t, source, base_dir).0, k)->0.confirm == match last_def(t, k)->0 {
            Data::Table(es) => lookup(es@, "confirm"@) == Some(Data::Bool(true)),
            Data::Array(v) => v@.len() == 6 && v@[5] == Data::Bool(true),
            _ => false,
        },
{
    lemma_last_definition_wins(c, t, source, base_dir, k);
    lemma_last_def_ok(c, t, source, base_dir, k);
    let v = last_def(t, k)->0;
    match v {
        Data::Array(a) => {
            if text_list(v) is Some && a@.len() == 6 {
                assert(text_of(a@[5]) is Some);
            }
        },
        _ => {},
    }
}

/// Files read in order: the last file read goes on from what the others made.
pub proof fn lemma_files_push(c: XconfView, fs: Seq<ConfigFile>, f: ConfigFile)
    ensures
        files_effect(c, fs.push(f)) == {
            let (c1, e) = files_effect(c, fs);
            if e is Some {
                (c1, e)
            } else {
                file_effect(c1, f)
            }
        },
    decreases fs.len(),
{
    if fs.len() == 0 {
        assert(fs.push(f).drop_first() =~= Seq::<ConfigFile>::empty());
        assert(fs.push(f)[0] == f);
        let (c1, e) = file_effect(c, f);
        if e is None {
            assert(files_effect(c1, Seq::<ConfigFile>::empty()) == (c1, None::<ErrorView>));
        }
    } else {
        assert(fs.push(f).drop_first() =~= fs.drop_first().push(f));
        assert(fs.push(f)[0] == fs[0]);
        let (c1, e) = file_effect(c, fs[0]);
        if e is None {
            lemma_files_push(c1, fs.drop_first(), f);
        }
    }
}

/// Later files override earlier ones: when all files are read without
/// error, a name defined in the last file gets that file's (last)
/// definition, whatever came before.
pub proof fn lemma_later_file_wins(
    c: XconfView,
    fs: Seq<ConfigFile>,
    f: ConfigFile,
    k: Seq<char>,
)
    requires
        files_effect(c, fs.push(f)).1 is None,
        toml_document(f.text@) is Some,
        last_def(toml_document(f.text@)->0, k) is Some,
        k != "alias"@,
    ensures
        command_at(files_effect(c, fs.push(f)).0, k) == Some(
            defined_command(
                k,
                last_def(toml_document(f.text@)->0, k)->0,
                f.source@,
                opt_view(f.base_dir),
            ),
        ),
{
    lemma_files_push(c, fs, f);
    let (c1, e) = files_effect(c, fs);
    assert(e is None);
    lemma_last_definition_wins(
        c1,
        toml_document(f.text@)->0,
        f.source@,
        opt_view(f.base_dir),
        k,
    );
}

/// The `x` table of a manifest text, when the text is TOML and `x` is a table
/// of definitions.
pub open spec fn manifest_entries(text: Seq<char>) -> Option<Seq<(String, Data)>> {
    match toml_document(text) {
        Some(doc) => match manifest_x(doc) {
            Ok(Some(MetadataTable::Entries(es))) => Some(es),
            _ => None,
        },
        None => None,
    }
}

/// `[package.metadata.x]` overrides every earlier layer: when the manifest is
/// read without error, a name its `x` table defines gets that table's (last)
/// definition, whatever the configuration held before.
pub proof fn lemma_manifest_wins(
    c: XconfView,
    path: Seq<char>,
    text: Seq<char>,
    root: Seq<char>,
    k: Seq<char>,
)
    requires
        manifest_effect(c, path, text, root).1 is None,
        manifest_entries(text) is Some,
        last_def(manifest_entries(text)->0, k) is Some,
        k != "alias"@,
    ensures
        command_at(manifest_effect(c, path, text, root).0, k) == Some(
            defined_command(
                k,
                last_def(manifest_entries(text)->0, k)->0,
                manifest_source(),
                Some(root),
            ),
        ),
{
    lemma_last_definition_wins(c, manifest_entries(text)->0, manifest_source(), Some(root), k);
}

/// The file defines a command under `k`.
pub open spec fn file_defines(f: ConfigFile, k: Seq<char>) -> bool {
    toml_document(f.text@) matches Some(t) && last_def(t, k) is Some
}

/// The command under `k` after reading the files over `c`: the definition
/// of the last file that defines `k`, else what `c` had.
pub open spec fn files_def(c: XconfView, fs: Seq<ConfigFile>, k: Seq<char>) -> Option<CommandView>
    decreases fs.len(),
{
    if fs.len() == 0 {
        command_at(c, k)
    } else {
        let f = fs.last();
        if file_defines(f, k) {
            Some(
                defined_command(
                    k,
                    last_def(toml_document(f.text@)->0, k)->0,
                    f.source@,
                    opt_view(f.base_dir),
                ),
            )
        } else {
            files_def(c, fs.drop_last(), k)
        }
    }
}

/// The command under `k` that a manifest's `x` table gives, if it gives one.
pub open spec fn manifest_def(text: Seq<char>, root: Seq<char>, k: Seq<char>) -> Option<
    CommandView,
> {
    match toml_document(text) {
        Some(doc) => match manifest_x(doc) {
            Ok(Some(MetadataTable::Entries(es))) => match last_def(es, k) {
                Some(v) => Some(defined_command(k, v, manifest_source(), Some(root))),
                None => None,
            },
            Ok(Some(MetadataTable::Stamp(s))) => if k == datetime_key() {
                Some(stamp_command(s, root))
            } else {
                None
            },
            _ => None,
        },
        None => None,
    }
}

/// The command under `k` after all layers: the manifest's, else the last
/// file's that defines `k`, else the detected one.
pub open spec fn layered_def(
    c: XconfView,
    fs: Seq<ConfigFile>,
    manifest: Option<(Seq<char>, Seq<char>, Seq<char>)>,
    k: Seq<char>,
) -> Option<CommandView> {
    match manifest {
        Some((p, t, r)) => match manifest_def(t, r, k) {
            Some(d) => Some(d),
            None => files_def(c, fs, k),
        },
        None => files_def(c, fs, k),
    }
}

/// When the files are read without error, the command under a name is the
/// one the last file defining it makes, or, when no file defines it, the
/// one it had before.
pub proof fn lemma_files_def(c: XconfView, fs: Seq<ConfigFile>, k: Seq<char>)
    requires
        files_effect(c, fs).1 is None,
        k != "alias"@,
    ensures
        command_at(files_effect(c, fs).0, k) == files_def(c, fs, k),
    decreases fs.len(),
{
    if fs.len() == 0 {
    } else {
        let pre = fs.drop_last();
        let f = fs.last();
        assert(fs =~= pre.push(f));
        lemma_files_push(c, pre, f);
        let (c1, e) = files_effect(c, pre);
        assert(e is None);
        lemma_files_def(c, pre, k);
        assert(toml_document(f.text@) is Some);
        let t = toml_document(f.text@)->0;
        lemma_last_definition_wins(c1, t, f.source@, opt_view(f.base_dir), k);
    }
}

proof fn lemma_manifest_def(c: XconfView, path: Seq<char>, text: Seq<char>, root: Seq<char>, k: Seq<char>)
    requires
        manifest_effect(c, path, text, root).1 is None,
        k != "alias"@,
    ensures
        command_at(manifest_effect(c, path, text, root).0, k) == match manifest_def(text, root, k) {
            Some(d) => Some(d),
            None => command_at(c, k),
        },
{
    let doc = toml_document(text)->0;
    match manifest_x(doc) {
        Ok(Some(MetadataTable::Entries(es))) => {
            lemma_last_definition_wins(c, es, manifest_source(), Some(root), k);
        },
        _ => {},
    }
}

/// The layers' precedence: when every layer is read without error, the
/// command under a name comes from `[package.metadata.x]` when it defines
/// the name; otherwise from the last configuration file that defines it
/// (with the files in the order `config_layers` gives: the nearest walked
/// `x.toml`, then farther ones, then the root `x.toml`, then `~/.x.toml`);
/// otherwise it is the detected command, if any.
pub proof fn lemma_layer_precedence(
    c: XconfView,
    fs: Seq<ConfigFile>,
    manifest: Option<(Seq<char>, Seq<char>, Seq<char>)>,
    k: Seq<char>,
)
    requires
        layers_effect(c, fs, manifest).1 is None,
        k != "alias"@,
    ensures
        command_at(layers_effect(c, fs, manifest).0, k) == layered_def(c, fs, manifest, k),
{
    lemma_files_def(c, fs, k);
    match manifest {
        None => {},
        Some((p, t, r)) => {
            lemma_manifest_def(files_effect(c, fs).0, p, t, r, k);
        },
    }
}

/// The command the file makes under `k`, when it defines `k`.
pub open spec fn file_def(f: ConfigFile, k: Seq<char>) -> CommandView {
    defined_command(k, last_def(toml_document(f.text@)->0, k)->0, f.source@, opt_view(f.base_dir))
}

/// The last of the files that defines `k`.
pub open spec fn last_defining(fs: Seq<ConfigFile>, k: Seq<char>) -> Option<ConfigFile>
    decreases fs.len(),
{
    if fs.len() == 0 {
        None
    } else if file_defines(fs.last(), k) {
        Some(fs.last())
    } else {
        last_defining(fs.drop_last(), k)
    }
}

proof fn lemma_files_def_append(c: XconfView, a: Seq<ConfigFile>, b: Seq<ConfigFile>, k: Seq<char>)
    ensures
        files_def(c, a + b, k) == match last_defining(b, k) {
            Some(f) => Some(file_def(f, k)),
            None => files_def(c, a, k),
        },
    decreases b.len(),
{
    if b.len() == 0 {
        assert(a + b =~= a);
    } else {
        assert((a + b).last() == b.last());
        assert((a + b).drop_last() =~= a + b.drop_last());
        lemma_files_def_append(c, a, b.drop_last(), k);
    }
}

/// The precedence of the layers, name by name: when every layer is read
/// without error, the command under a name is the one `[package.metadata.x]`
/// gives; else the one of the nearest walked `x.toml` that defines it; else
/// the root `x.toml`'s; else `~/.x.toml`'s; else the detected command.
pub proof fn lemma_precedence_chain(
    detected: XconfView,
    home: Option<ConfigFile>,
    root: Option<ConfigFile>,
    walked: Seq<ConfigFile>,
    manifest: Option<(Seq<char>, Seq<char>, Seq<char>)>,
    k: Seq<char>,
)
    requires
        layers_effect(detected, present_files(home, root) + walked, manifest).1 is None,
        k != "alias"@,
    ensures
        command_at(layers_effect(detected, present_files(home, root) + walked, manifest).0, k) == {
            let from_manifest = match manifest {
                Some((p, t, r)) => manifest_def(t, r, k),
                None => None,
            };
            if from_manifest is Some {
                from_manifest
            } else if last_defining(walked, k) is Some {
                Some(file_def(last_defining(walked, k)->0, k))
            } else if root is Some && file_defines(root->0, k) {
                Some(file_def(root->0, k))
            } else if home is Some && file_defines(home->0, k) {
                Some(file_def(home->0, k))
            } else {
                command_at(detected, k)
            }
        },
{
    let pre = present_files(home, root);
    lemma_layer_precedence(detected, pre + walked, manifest, k);
    lemma_files_def_append(detected, pre, walked, k);
    let e = Seq::<ConfigFile>::empty();
    assert(files_def(detected, e, k) == command_at(detected, k));
    match (home, root) {
        (Some(h), Some(r)) => {
            assert(pre.last() == r);
            assert(pre.drop_last() =~= seq![h]);
            assert(seq![h].last() == h);
            assert(seq![h].drop_last() =~= e);
            assert(files_def(detected, seq![h], k) == if file_defines(h, k) {
                Some(file_def(h, k))
            } else {
                command_at(detected, k)
            });
        },
        (Some(h), None) => {
            assert(pre.last() == h);
            assert(pre.drop_last() =~= e);
        },
        (None, Some(r)) => {
            assert(pre.last() == r);
            assert(pre.drop_last() =~= e);
        },
        (None, None) => {
            assert(pre =~= e);
        },
    }
}

/// Two configuration files, name by name: when `~/.x.toml` and the root
/// `x.toml` (each when given) are read without error, a name gets the root
/// file's definition when it defines it, else the home file's, else none;
/// so the names are those either file defines.
pub proof fn lemma_home_and_root(home: Option<ConfigFile>, root: Option<ConfigFile>, k: Seq<char>)
    requires
        files_effect(empty_conf(), present_files(home, root)).1 is None,
        k != "alias"@,
    ensures
        command_at(files_effect(empty_conf(), present_files(home, root)).0, k) == if root is Some
            && file_defines(root->0, k) {
            Some(file_def(root->0, k))
        } else if home is Some && file_defines(home->0, k) {
            Some(file_def(home->0, k))
        } else {
            None::<CommandView>
        },
{
    let fs = present_files(home, root);
    assert(fs + Seq::<ConfigFile>::empty() =~= fs);
    assert(layers_effect(empty_conf(), fs + Seq::<ConfigFile>::empty(), None) == files_effect(
        empty_conf(),
        fs,
    ));
    lemma_precedence_chain(empty_conf(), home, root, Seq::empty(), None, k);
    assert(command_at(empty_conf(), k) == None::<CommandView>);
}

/// The nearest of the walked directories whose `x.toml` defines `k`.
pub open spec fn first_defining(dirs: Seq<(String, Option<ConfigFile>)>, k: Seq<char>) -> Option<
    ConfigFile,
>
    decreases dirs.len(),
{
    if dirs.len() == 0 {
        None
    } else if dirs[0].1 is Some && file_defines(dirs[0].1->0, k) {
        dirs[0].1
    } else {
        first_defining(dirs.drop_first(), k)
    }
}

proof fn lemma_nearest_last_front(dirs: Seq<(String, Option<ConfigFile>)>)
    requires
        dirs.len() > 0,
    ensures
        files_nearest_last(dirs) == files_nearest_last(dirs.drop_first()) + crate::text::opt_seq(
            dirs[0].1,
        ),
    decreases dirs.len(),
{
    let df = dirs.drop_first();
    if dirs.len() == 1 {
        assert(dirs.drop_last() =~= Seq::<(String, Option<ConfigFile>)>::empty());
        assert(df =~= Seq::<(String, Option<ConfigFile>)>::empty());
        assert(crate::text::opt_seq(dirs[0].1) + Seq::<ConfigFile>::empty() =~= Seq::<ConfigFile>::empty()
            + crate::text::opt_seq(dirs[0].1));
    } else {
        let dl = dirs.drop_last();
        lemma_nearest_last_front(dl);
        assert(dl.drop_first() =~= df.drop_last());
        assert(dl[0] == dirs[0]);
        assert(df.last() == dirs.last());
        assert(crate::text::opt_seq(dirs.last().1) + (files_nearest_last(df.drop_last())
            + crate::text::opt_seq(dirs[0].1)) =~= (crate::text::opt_seq(df.last().1)
            + files_nearest_last(df.drop_last())) + crate::text::opt_seq(dirs[0].1));
    }
}

proof fn lemma_last_defining_append(a: Seq<ConfigFile>, b: Seq<ConfigFile>, k: Seq<char>)
    ensures
        last_defining(a + b, k) == match last_defining(b, k) {
            Some(f) => Some(f),
            None => last_defining(a, k),
        },
    decreases b.len(),
{
    if b.len() == 0 {
        assert(a + b =~= a);
    } else {
        assert((a + b).last() == b.last());
        assert((a + b).drop_last() =~= a + b.drop_last());
        lemma_last_defining_append(a, b.drop_last(), k);
    }
}

proof fn lemma_walked_last_is_nearest(dirs: Seq<(String, Option<ConfigFile>)>, k: Seq<char>)
    ensures
        last_defining(files_nearest_last(dirs), k) == first_defining(dirs, k),
    decreases dirs.len(),
{
    if dirs.len() > 0 {
        let df = dirs.drop_first();
        lemma_nearest_last_front(dirs);
        lemma_walked_last_is_nearest(df, k);
        let o = crate::text::opt_seq(dirs[0].1);
        lemma_last_defining_append(files_nearest_last(df), o, k);
        if dirs[0].1 is Some {
            let f = dirs[0].1->0;
            assert(o =~= seq![f]);
            assert(seq![f].drop_last() =~= Seq::<ConfigFile>::empty());
            assert(seq![f].last() == f);
            assert(last_defining(Seq::<ConfigFile>::empty(), k) == None::<ConfigFile>);
            assert(last_defining(o, k) == if file_defines(f, k) {
                Some(f)
            } else {
                None::<ConfigFile>
            });
        } else {
            assert(o =~= Seq::<ConfigFile>::empty());
            assert(last_defining(o, k) == None::<ConfigFile>);
        }
    }
}

/// Among the `x.toml` files walked up from the current directory, the
/// nearest wins: when every layer is read without error and the manifest
/// does not define `k`, a name defined by some walked file below the root
/// gets the definition of the nearest such file, over farther ones, the
/// root `x.toml`, `~/.x.toml` and the detected commands.
pub proof fn lemma_nearest_walked_wins(
    detected: XconfView,
    home: Option<ConfigFile>,
    root_file: Option<ConfigFile>,
    ancestors: Seq<(String, Option<ConfigFile>)>,
    root: Option<Seq<char>>,
    manifest: Option<(Seq<char>, Seq<char>, Seq<char>)>,
    k: Seq<char>,
)
    requires
        layers_effect(
            detected,
            present_files(home, root_file) + walked_spec(ancestors, root),
            manifest,
        ).1 is None,
        k != "alias"@,
        match manifest {
            Some((p, t, r)) => manifest_def(t, r, k) is None,
            None => true,
        },
        first_defining(before_root(ancestors, root), k) is Some,
    ensures
        command_at(
            layers_effect(
                detected,
                present_files(home, root_file) + walked_spec(ancestors, root),
                manifest,
            ).0,
            k,
        ) == Some(file_def(first_defining(before_root(ancestors, root), k)->0, k)),
{
    lemma_precedence_chain(detected, home, root_file, walked_spec(ancestors, root), manifest, k);
    lemma_walked_last_is_nearest(before_root(ancestors, root), k);
}

proof fn lemma_files_def_some(c: XconfView, fs: Seq<ConfigFile>, k: Seq<char>)
    ensures
        files_def(c, fs, k) is Some <==> (c.commands.contains_key(k) || exists|i: int|
            0 <= i < fs.len() && file_defines(#[trigger] fs[i], k)),
    decreases fs.len(),
{
    if fs.len() > 0 {
        let pre = fs.drop_last();
        lemma_files_def_some(c, pre, k);
        if exists|i: int| 0 <= i < pre.len() && file_defines(#[trigger] pre[i], k) {
            let i = choose|i: int| 0 <= i < pre.len() && file_defines(#[trigger] pre[i], k);
            assert(fs[i] == pre[i]);
        }
        if exists|i: int| 0 <= i < fs.len() && file_defines(#[trigger] fs[i], k) {
            let i = choose|i: int| 0 <= i < fs.len() && file_defines(#[trigger] fs[i], k);
            if i < pre.len() {
                assert(pre[i] == fs[i]);
            }
        }
    }
}

/// The names of the commands after reading files without error: those that
/// were there before, together with those any file defines.
pub proof fn lemma_files_union(c: XconfView, fs: Seq<ConfigFile>, k: Seq<char>)
    requires
        files_effect(c, fs).1 is None,
        k != "alias"@,
    ensures
        files_effect(c, fs).0.commands.contains_key(k) <==> (c.commands.contains_key(k)
            || exists|i: int| 0 <= i < fs.len() && file_defines(#[trigger] fs[i], k)),
{
    lemma_files_def(c, fs, k);
    lemma_files_def_some(c, fs, k);
}

/// No command and no alias has a reserved name.
pub open spec fn no_reserved(c: XconfView) -> bool {
    &&& !c.commands.contains_key("x"@)
    &&& !c.commands.contains_key("alias"@)
    &&& !c.aliases.contains_key("x"@)
    &&& !c.aliases.contains_key("alias"@)
}

proof fn lemma_aliases_no_reserved(c: XconfView, p: Seq<(Seq<char>, Seq<char>)>, s: Seq<char>)
    requires
        no_reserved(c),
    ensures
        no_reserved(apply_aliases(c, p, s).0),
    decreases p.len(),
{
    if p.len() > 0 && !reserved(p[0].0) {
        lemma_aliases_no_reserved(
            XconfView {
                commands: c.commands,
                aliases: c.aliases.insert(p[0].0, AliasView { target: p[0].1, source: s }),
            },
            p.drop_first(),
            s,
        );
    }
}

/// The keys `x` and `alias` never become command or alias names, whether
/// or not the table is read without error.
pub proof fn lemma_reserved_never_defined(
    c: XconfView,
    t: Seq<(String, Data)>,
    source: Seq<char>,
    base_dir: Option<Seq<char>>,
)
    requires
        no_reserved(c),
    ensures
        no_reserved(apply_table(c, t, source, base_dir).0),
    decreases t.len(),
{
    if t.len() > 0 {
        let key = t[0].0@;
        if key == "alias"@ {
            if let Some(p) = text_table(t[0].1) {
                lemma_aliases_no_reserved(c, p, source);
            }
        }
        let (c1, e) = apply_entry(c, key, t[0].1, source, base_dir);
        assert(no_reserved(c1));
        if e is None {
            lemma_reserved_never_defined(c1, t.drop_first(), source, base_dir);
        }
    }
}

} // verus!
