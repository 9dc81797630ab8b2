//! The command line: flags, positional arguments and the environment behind them.

use vstd::prelude::*;
use vstd::string::*;

use crate::registry;
use crate::registry::{Entry, Test};
use crate::words;

verus! {

/// What was given on the command line.
pub struct Given {
    pub filter: String,
    pub skip: String,
    pub delay: String,
    pub list: bool,
    pub positionals: Vec<String>,
}

/// The same, by characters.
pub struct GivenText {
    pub filter: Seq<char>,
    pub skip: Seq<char>,
    pub delay: Seq<char>,
    pub list: bool,
    pub positionals: Seq<Seq<char>>,
}

impl View for Given {
    type V = GivenText;

    open spec fn view(&self) -> GivenText {
        GivenText {
            filter: self.filter@,
            skip: self.skip@,
            delay: self.delay@,
            list: self.list,
            positionals: words::texts(self.positionals@),
        }
    }
}

/// What the command line asks for. `G` is what was given, `S` is text.
pub enum ParsedOf<G, S> {
    Run(G),
    /// The usage, and nothing else.
    Help,
    /// A flag that there is not.
    Unknown(S),
}

pub type Parsed = ParsedOf<Given, String>;

pub type ParsedText = ParsedOf<GivenText, Seq<char>>;

impl View for ParsedOf<Given, String> {
    type V = ParsedOf<GivenText, Seq<char>>;

    open spec fn view(&self) -> ParsedOf<GivenText, Seq<char>> {
        match *self {
            ParsedOf::Run(g) => ParsedOf::Run(g@),
            ParsedOf::Help => ParsedOf::Help,
            ParsedOf::Unknown(f) => ParsedOf::Unknown(f@),
        }
    }
}

/// Kinds of arguments.
#[derive(Clone, Copy, PartialEq, Eq, Structural)]
pub enum Flag {
    List,
    Only,
    Skip,
    Delay,
    Help,
    Unknown,
    Positional,
}

/// An argument up to its first `=`.
pub open spec fn key_of(a: Seq<char>) -> Seq<char> {
    match words::place_of(a, '=', 0) {
        Some(i) => a.take(i),
        None => a,
    }
}

/// An argument after its first `=`, if it has one.
pub open spec fn inline_of(a: Seq<char>) -> Option<Seq<char>> {
    match words::place_of(a, '=', 0) {
        Some(i) => Some(a.skip(i + 1)),
        None => None,
    }
}

pub open spec fn flag_of(key: Seq<char>) -> Flag {
    if key == "list"@ || key == "--list"@ {
        Flag::List
    } else if key == "--only"@ || key == "-o"@ || key == "--filter"@ {
        Flag::Only
    } else if key == "--skip"@ || key == "-s"@ {
        Flag::Skip
    } else if key == "--delay"@ || key == "-d"@ {
        Flag::Delay
    } else if key == "-h"@ || key == "--help"@ {
        Flag::Help
    } else if key.len() > 0 && key[0] == '-' {
        Flag::Unknown
    } else {
        Flag::Positional
    }
}

/// The value of the flag at `i`: what follows the `=`, else the next argument, else
/// nothing.
pub open spec fn value_at(args: Seq<Seq<char>>, i: int) -> Seq<char> {
    match inline_of(args[i]) {
        Some(v) => v,
        None => if i + 1 < args.len() {
            args[i + 1]
        } else {
            Seq::empty()
        },
    }
}

/// The argument after the flag at `i` and its value.
pub open spec fn after_value(args: Seq<Seq<char>>, i: int) -> int {
    if inline_of(args[i]) is Some || i + 1 >= args.len() {
        i + 1
    } else {
        i + 2
    }
}

/// The arguments from `i` on, after `g` was given. A later flag overrides an earlier
/// one.
pub open spec fn parsed_from(args: Seq<Seq<char>>, i: int, g: GivenText) -> ParsedText
    decreases args.len() - i,
{
    if i >= args.len() {
        ParsedOf::Run(g)
    } else {
        match flag_of(key_of(args[i])) {
            Flag::List => parsed_from(args, i + 1, GivenText { list: true, ..g }),
            Flag::Only => parsed_from(
                args,
                after_value(args, i),
                GivenText { filter: value_at(args, i), ..g },
            ),
            Flag::Skip => parsed_from(
                args,
                after_value(args, i),
                GivenText { skip: value_at(args, i), ..g },
            ),
            Flag::Delay => parsed_from(
                args,
                after_value(args, i),
                GivenText { delay: value_at(args, i), ..g },
            ),
            Flag::Help => ParsedOf::Help,
            Flag::Unknown => ParsedOf::Unknown(key_of(args[i])),
            Flag::Positional => parsed_from(
                args,
                i + 1,
                GivenText { positionals: g.positionals.push(args[i]), ..g },
            ),
        }
    }
}

pub open spec fn nothing_given() -> GivenText {
    GivenText {
        filter: Seq::empty(),
        skip: Seq::empty(),
        delay: Seq::empty(),
        list: false,
        positionals: Seq::empty(),
    }
}

/// What the arguments, without the name of the program, ask for.
pub open spec fn parsed(args: Seq<Seq<char>>) -> ParsedText {
    parsed_from(args, 0, nothing_given())
}

/// Key and inline value of an argument.
fn split_flag(a: &String) -> (r: (String, Option<String>))
    ensures
        r.0@ == key_of(a@),
        match r.1 {
            Some(v) => inline_of(a@) == Some(v@),
            None => inline_of(a@) is None,
        },
{
    match words::find_char(a.as_str(), '=') {
        Some(i) => {
            let n: usize = a.as_str().unicode_len();
            let key = a.as_str().substring_char(0, i).to_owned();
            let value = a.as_str().substring_char(i + 1, n).to_owned();
            assert(key@ =~= a@.take(i as int));
            assert(value@ =~= a@.skip(i + 1));
            (key, Some(value))
        },
        None => (a.clone(), None),
    }
}

fn is(s: &String, word: &str) -> (yes: bool)
    ensures
        yes == (s@ == word@),
{
    *s == word.to_owned()
}

fn kind_of(key: &String) -> (f: Flag)
    ensures
        f == flag_of(key@),
{
    if is(key, "list") || is(key, "--list") {
        Flag::List
    } else if is(key, "--only") || is(key, "-o") || is(key, "--filter") {
        Flag::Only
    } else if is(key, "--skip") || is(key, "-s") {
        Flag::Skip
    } else if is(key, "--delay") || is(key, "-d") {
        Flag::Delay
    } else if is(key, "-h") || is(key, "--help") {
        Flag::Help
    } else if key.as_str().unicode_len() > 0 && key.as_str().get_char(0) == '-' {
        Flag::Unknown
    } else {
        Flag::Positional
    }
}

fn take_value(args: &Vec<String>, i: usize, inline: Option<String>) -> (r: (String, usize))
    requires
        i < args.len(),
        match inline {
            Some(v) => inline_of(args[i as int]@) == Some(v@),
            None => inline_of(args[i as int]@) is None,
        },
    ensures
        r.0@ == value_at(words::texts(args@), i as int),
        r.1 == after_value(words::texts(args@), i as int),
{
    match inline {
        Some(v) => (v, i + 1),
        None => if i + 1 < args.len() {
            (args[i + 1].clone(), i + 2)
        } else {
            (String::new(), i + 1)
        },
    }
}

/// What the arguments, without the name of the program, ask for.
pub fn parse(args: &Vec<String>) -> (p: Parsed)
    ensures
        p@ == parsed(words::texts(args@)),
{
    let mut g = Given {
        filter: String::new(),
        skip: String::new(),
        delay: String::new(),
        list: false,
        positionals: Vec::new(),
    };
    assert(words::texts(g.positionals@) =~= Seq::empty());
    let ghost texts = words::texts(args@);
    let mut i: usize = 0;
    while i < args.len()
        invariant
            i <= args.len(),
            texts == words::texts(args@),
            parsed(texts) == parsed_from(texts, i as int, g@),
        decreases args.len() - i,
    {
        let ghost before = g@;
        let (key, inline) = split_flag(&args[i]);
        match kind_of(&key) {
            Flag::List => {
                g.list = true;
                i = i + 1;
            },
            Flag::Only => {
                let (value, next) = take_value(args, i, inline);
                g.filter = value;
                i = next;
            },
            Flag::Skip => {
                let (value, next) = take_value(args, i, inline);
                g.skip = value;
                i = next;
            },
            Flag::Delay => {
                let (value, next) = take_value(args, i, inline);
                g.delay = value;
                i = next;
            },
            Flag::Help => {
                return ParsedOf::Help;
            },
            Flag::Unknown => {
                return ParsedOf::Unknown(key);
            },
            Flag::Positional => {
                g.positionals.push(args[i].clone());
                assert(words::texts(g.positionals@) =~= before.positionals.push(texts[i as int]));
                i = i + 1;
            },
        }
    }
    ParsedOf::Run(g)
}

/// What the scenarios are run with.
pub struct Settings {
    pub sock: String,
    /// Lower case; empty for all scenarios.
    pub filter: String,
    /// Lower case, none of them empty.
    pub skip: Vec<String>,
    pub delay_ms: u64,
}

/// The same, by characters.
pub struct SettingsText {
    pub sock: Seq<char>,
    pub filter: Seq<char>,
    pub skip: Seq<Seq<char>>,
    pub delay_ms: u64,
}

impl View for Settings {
    type V = SettingsText;

    open spec fn view(&self) -> SettingsText {
        SettingsText {
            sock: self.sock@,
            filter: self.filter@,
            skip: words::texts(self.skip@),
            delay_ms: self.delay_ms,
        }
    }
}

/// A value that was given, or what stands behind it where it is empty.
pub open spec fn given_or(given: Seq<char>, behind: Option<Seq<char>>) -> Seq<char> {
    if given.len() > 0 {
        given
    } else {
        match behind {
            Some(v) => v,
            None => Seq::empty(),
        }
    }
}

/// The argument at a position, if there is one.
pub open spec fn positional(g: GivenText, i: int) -> Option<Seq<char>> {
    if i < g.positionals.len() {
        Some(g.positionals[i])
    } else {
        None
    }
}

/// The socket: the first positional argument, even an empty one, before the
/// environment.
pub open spec fn socket(g: GivenText, env: Option<Seq<char>>) -> Seq<char> {
    match positional(g, 0) {
        Some(v) => v,
        None => given_or(Seq::empty(), env),
    }
}

/// The settings: a flag before a positional argument before the environment.
pub open spec fn settings(
    g: GivenText,
    env_sock: Option<Seq<char>>,
    env_skip: Option<Seq<char>>,
    env_delay: Option<Seq<char>>,
) -> Option<SettingsText> {
    if socket(g, env_sock).len() == 0 {
        None
    } else {
        Some(
            SettingsText {
                sock: socket(g, env_sock),
                filter: words::lowered(given_or(g.filter, positional(g, 1))),
                skip: words::tokens(given_or(g.skip, env_skip)),
                delay_ms: words::number_or_zero(given_or(g.delay, env_delay)),
            },
        )
    }
}

/// An optional text by its characters.
pub open spec fn optional(s: Option<String>) -> Option<Seq<char>> {
    match s {
        Some(v) => Some(v@),
        None => None,
    }
}

fn or_behind(given: String, behind: Option<String>) -> (s: String)
    ensures
        s@ == given_or(given@, optional(behind)),
{
    if given.as_str().unicode_len() > 0 {
        given
    } else {
        match behind {
            Some(v) => v,
            None => String::new(),
        }
    }
}

fn nth(v: &Vec<String>, i: usize) -> (s: Option<String>)
    ensures
        match s {
            Some(x) => i < v.len() && x@ == v[i as int]@,
            None => i >= v.len(),
        },
{
    if i < v.len() {
        Some(v[i].clone())
    } else {
        None
    }
}

/// The settings, or nothing without a socket.
pub fn settle(
    g: Given,
    env_sock: Option<String>,
    env_skip: Option<String>,
    env_delay: Option<String>,
) -> (s: Option<Settings>)
    ensures
        match s {
            Some(x) => settings(
                g@,
                optional(env_sock),
                optional(env_skip),
                optional(env_delay),
            ) == Some(x@),
            None => settings(
                g@,
                optional(env_sock),
                optional(env_skip),
                optional(env_delay),
            ) is None,
        },
{
    let sock: String = match nth(&g.positionals, 0) {
        Some(v) => v,
        None => or_behind(String::new(), env_sock),
    };
    if sock.as_str().unicode_len() == 0 {
        return None;
    }
    let second = nth(&g.positionals, 1);
    let filter = words::lower(or_behind(g.filter, second).as_str());
    let skip = words::split_tokens(or_behind(g.skip, env_skip).as_str());
    let delay_ms: u64 = words::parse_or_zero(or_behind(g.delay, env_delay).as_str());
    Some(Settings { sock, filter, skip, delay_ms })
}

// ---- selection ---------------------------------------------------------------------

/// Name or category holds the token, whatever the case of each.
pub open spec fn named(name: Seq<char>, cat: Seq<char>, tok: Seq<char>) -> bool {
    words::occurs(words::lowered(name), words::lowered(tok)) || words::occurs(
        words::lowered(cat),
        words::lowered(tok),
    )
}

/// Name or category hold one of the first `k` tokens.
pub open spec fn skipped(name: Seq<char>, cat: Seq<char>, skip: Seq<Seq<char>>, k: int) -> bool {
    exists|i: int| 0 <= i < k && named(name, cat, #[trigger] skip[i])
}

/// The scenario is to be run: it passes the filter and no token takes it out.
pub open spec fn wanted(e: Entry, filter: Seq<char>, skip: Seq<Seq<char>>) -> bool {
    (filter.len() == 0 || named(e.0, e.1, filter)) && !skipped(e.0, e.1, skip, skip.len() as int)
}

/// The scenarios to be run, in their order.
pub open spec fn chosen(es: Seq<Entry>, filter: Seq<char>, skip: Seq<Seq<char>>) -> Seq<Entry> {
    es.filter(|e: Entry| wanted(e, filter, skip))
}

/// Tells whether name or category holds the token, all three in lower case already.
pub fn either_holds(name: &str, cat: &str, tok: &str) -> (yes: bool)
    ensures
        yes == (words::occurs(name@, tok@) || words::occurs(cat@, tok@)),
{
    words::contains(name, tok) || words::contains(cat, tok)
}

/// Tells whether name or category holds the token, whatever the case of each.
pub fn name_or_cat(name: &str, cat: &str, tok: &str) -> (yes: bool)
    ensures
        yes == named(name@, cat@, tok@),
{
    either_holds(
        words::lower(name).as_str(),
        words::lower(cat).as_str(),
        words::lower(tok).as_str(),
    )
}

fn is_wanted(t: Test, filter: &str, skip: &Vec<String>) -> (yes: bool)
    ensures
        yes == wanted(registry::entry(t), filter@, words::texts(skip@)),
{
    if filter.unicode_len() > 0 && !name_or_cat(t.0, t.1, filter) {
        return false;
    }
    let ghost texts = words::texts(skip@);
    let mut i: usize = 0;
    while i < skip.len()
        invariant
            i <= skip.len(),
            texts == words::texts(skip@),
            filter@.len() == 0 || named(t.0@, t.1@, filter@),
            !skipped(t.0@, t.1@, texts, i as int),
        decreases skip.len() - i,
    {
        if name_or_cat(t.0, t.1, skip[i].as_str()) {
            assert(named(t.0@, t.1@, texts[i as int]));
            return false;
        }
        assert(!named(t.0@, t.1@, texts[i as int]));
        i = i + 1;
    }
    true
}

/// The scenarios to be run, in their order.
pub fn select(tests: &Vec<Test>, filter: &str, skip: &Vec<String>) -> (v: Vec<Test>)
    ensures
        registry::entries(v@) == chosen(
            registry::entries(tests@),
            filter@,
            words::texts(skip@),
        ),
{
    let ghost es = registry::entries(tests@);
    let ghost f = |e: Entry| wanted(e, filter@, words::texts(skip@));
    let mut v: Vec<Test> = Vec::new();
    let mut i: usize = 0;
    proof {
        reveal(Seq::filter);
    }
    assert(registry::entries(v@) =~= es.take(0).filter(f));
    while i < tests.len()
        invariant
            i <= tests.len(),
            es == registry::entries(tests@),
            f == (|e: Entry| wanted(e, filter@, words::texts(skip@))),
            registry::entries(v@) == es.take(i as int).filter(f),
        decreases tests.len() - i,
    {
        let ghost before = registry::entries(v@);
        let t: Test = tests[i];
        let ghost upto = es.take(i + 1);
        assert(upto.drop_last() =~= es.take(i as int));
        proof {
            reveal(Seq::filter);
        }
        if is_wanted(t, filter, skip) {
            v.push(t);
            assert(registry::entries(v@) =~= before.push(registry::entry(t)));
        }
        i = i + 1;
    }
    assert(es.take(i as int) =~= es);
    v
}

// ---- laws ----------------------------------------------------------------------------

proof fn lemma_filter_twice(
    es: Seq<Entry>,
    p: spec_fn(Entry) -> bool,
    q: spec_fn(Entry) -> bool,
    r: spec_fn(Entry) -> bool,
)
    requires
        forall|e: Entry| #[trigger] r(e) == (p(e) && q(e)),
    ensures
        es.filter(p).filter(q) == es.filter(r),
    decreases es.len(),
{
    reveal(Seq::filter);
    if es.len() > 0 {
        let rest = es.drop_last();
        let last = es.last();
        lemma_filter_twice(rest, p, q, r);
        if p(last) {
            assert(rest.filter(p).push(last).drop_last() =~= rest.filter(p));
        }
        assert(r(last) == (p(last) && q(last)));
    }
}

/// Filter and skip combine: first the part that passes the filter, then that part without
/// what is skipped.
pub proof fn skip_is_taken_from_the_filtered(
    es: Seq<Entry>,
    filter: Seq<char>,
    skip: Seq<Seq<char>>,
)
    ensures
        chosen(es, filter, skip) == chosen(
            chosen(es, filter, Seq::empty()),
            Seq::empty(),
            skip,
        ),
{
    let none = Seq::<Seq<char>>::empty();
    let p = |e: Entry| wanted(e, filter, none);
    let q = |e: Entry| wanted(e, Seq::empty(), skip);
    let r = |e: Entry| wanted(e, filter, skip);
    assert forall|e: Entry| #[trigger] r(e) == (p(e) && q(e)) by {
        assert(!skipped(e.0, e.1, none, 0));
    }
    lemma_filter_twice(es, p, q, r);
}

/// Without a filter and without anything to skip, all scenarios are run.
pub proof fn all_is_the_default(es: Seq<Entry>)
    ensures
        chosen(es, Seq::empty(), Seq::empty()) == es,
    decreases es.len(),
{
    reveal(Seq::filter);
    if es.len() > 0 {
        all_is_the_default(es.drop_last());
        assert(!skipped(es.last().0, es.last().1, Seq::empty(), 0));
        assert(es.drop_last().push(es.last()) =~= es);
    }
}

/// A flag comes before a positional argument, and that before the environment.
pub proof fn precedence(
    g: GivenText,
    env_sock: Option<Seq<char>>,
    env_skip: Option<Seq<char>>,
    env_delay: Option<Seq<char>>,
)
    ensures
        settings(g, env_sock, env_skip, env_delay) matches Some(x) ==> {
            &&& g.positionals.len() > 0 ==> x.sock == g.positionals[0]
            &&& g.positionals.len() == 0 ==> env_sock == Some(x.sock)
            &&& g.filter.len() > 0 ==> x.filter == words::lowered(g.filter)
            &&& g.filter.len() == 0 && g.positionals.len() > 1 ==> x.filter == words::lowered(
                g.positionals[1],
            )
            &&& g.skip.len() > 0 ==> x.skip == words::tokens(g.skip)
            &&& g.skip.len() == 0 ==> (env_skip matches Some(v) ==> x.skip == words::tokens(v))
            &&& g.delay.len() > 0 ==> x.delay_ms == words::number_or_zero(g.delay)
            &&& g.delay.len() == 0 ==> (env_delay matches Some(v) ==> x.delay_ms
                == words::number_or_zero(v))
        },
{
}

} // verus!
