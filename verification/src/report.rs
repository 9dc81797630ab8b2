//! What is printed, and the code to exit with.

use vstd::prelude::*;
use vstd::string::*;

use crate::checks::{TestErr, TR};
use crate::registry;
use crate::registry::{Entry, Test};
use crate::text;
use crate::words;

verus! {

// ---- the list of scenarios ---------------------------------------------------------

/// The lines for the entries from `i` on, where `last` was the category before.
pub open spec fn listing_from(es: Seq<Entry>, i: int, last: Seq<char>) -> Seq<Seq<char>>
    decreases es.len() - i,
{
    if i >= es.len() {
        Seq::empty()
    } else {
        let name = "  "@ + es[i].0;
        let here = if es[i].1 == last {
            seq![name]
        } else {
            seq!["\n["@ + es[i].1 + "]"@, name]
        };
        here + listing_from(es, i + 1, es[i].1)
    }
}

/// The lines of the list of scenarios: names under their categories.
pub open spec fn listed(es: Seq<Entry>) -> Seq<Seq<char>> {
    listing_from(es, 0, Seq::empty())
}

/// The lines of the list of scenarios: names under their categories.
pub fn listing(tests: &Vec<Test>) -> (lines: Vec<String>)
    ensures
        words::texts(lines@) == listed(registry::entries(tests@)),
{
    let ghost es = registry::entries(tests@);
    let mut lines: Vec<String> = Vec::new();
    let mut last: String = String::new();
    let mut i: usize = 0;
    assert(words::texts(lines@) + listed(es) =~= listed(es));
    while i < tests.len()
        invariant
            i <= tests.len(),
            es == registry::entries(tests@),
            words::texts(lines@) + listing_from(es, i as int, last@) == listed(es),
        decreases tests.len() - i,
    {
        let ghost before = words::texts(lines@);
        let ghost was = last@;
        let t: Test = tests[i];
        let cat: String = t.1.to_owned();
        if cat != last {
            let mut line = String::from_str("\n[");
            line.append(t.1);
            line.append("]");
            lines.push(line);
        }
        let mut line = String::from_str("  ");
        line.append(t.0);
        lines.push(line);
        last = cat;
        i = i + 1;
        assert(words::texts(lines@) + listing_from(es, i as int, last@) =~= before + listing_from(
            es,
            i - 1,
            was,
        ));
    }
    assert(words::texts(lines@) + listing_from(es, i as int, last@) =~= words::texts(lines@));
    lines
}

// ---- before and between scenarios ----------------------------------------------------

/// Texts with a comma and a space between them.
pub open spec fn joined(parts: Seq<Seq<char>>) -> Seq<char>
    decreases parts.len(),
{
    if parts.len() == 0 {
        Seq::empty()
    } else if parts.len() == 1 {
        parts[0]
    } else {
        joined(parts.drop_last()) + ", "@ + parts.last()
    }
}

fn join(parts: &Vec<String>) -> (s: String)
    ensures
        s@ == joined(words::texts(parts@)),
{
    let ghost texts = words::texts(parts@);
    let mut s = String::new();
    let mut i: usize = 0;
    while i < parts.len()
        invariant
            i <= parts.len(),
            texts == words::texts(parts@),
            s@ == joined(texts.take(i as int)),
        decreases parts.len() - i,
    {
        assert(texts.take(i + 1).drop_last() =~= texts.take(i as int));
        if i > 0 {
            s.append(", ");
        }
        s.append(parts[i].as_str());
        if i == 0 {
            assert(s@ =~= texts[0]);
        }
        i = i + 1;
    }
    assert(texts.take(i as int) =~= texts);
    s
}

/// The lines before the first scenario.
pub open spec fn heading(
    sock: Seq<char>,
    filter: Seq<char>,
    skip: Seq<Seq<char>>,
    n: nat,
) -> Seq<Seq<char>> {
    seq!["vhost-user-blk conformance (rust-vmm Frontend)"@, "socket: "@ + sock] + (if filter.len()
        == 0 {
        Seq::empty()
    } else {
        seq!["filter: "@ + filter]
    }) + (if skip.len() == 0 {
        Seq::empty()
    } else {
        seq!["skip:   "@ + joined(skip)]
    }) + seq!["tests:  "@ + text::decimal(n) + "\n"@]
}

/// The lines before the first of `n` scenarios.
pub fn banner(sock: &str, filter: &str, skip: &Vec<String>, n: usize) -> (lines: Vec<String>)
    ensures
        words::texts(lines@) == heading(sock@, filter@, words::texts(skip@), n as nat),
{
    let mut lines: Vec<String> = Vec::new();
    lines.push(String::from_str("vhost-user-blk conformance (rust-vmm Frontend)"));
    let mut line = String::from_str("socket: ");
    line.append(sock);
    lines.push(line);
    if filter.unicode_len() > 0 {
        let mut line = String::from_str("filter: ");
        line.append(filter);
        lines.push(line);
    }
    if skip.len() > 0 {
        let mut line = String::from_str("skip:   ");
        line.append(join(skip).as_str());
        lines.push(line);
    }
    let mut line = String::from_str("tests:  ");
    line.append(text::dec(n as u64).as_str());
    line.append("\n");
    lines.push(line);
    assert(words::texts(lines@) =~= heading(sock@, filter@, words::texts(skip@), n as nat));
    lines
}

/// The line before a scenario whose category is not that of the one before.
pub fn section(last: &str, cat: &str) -> (line: Option<String>)
    ensures
        match line {
            Some(s) => last@ != cat@ && s@ == "\n== "@ + cat@ + " =="@,
            None => last@ == cat@,
        },
{
    if last.to_owned() == cat.to_owned() {
        return None;
    }
    let mut line = String::from_str("\n== ");
    line.append(cat);
    line.append(" ==");
    Some(line)
}

/// What a scenario came to, by characters.
pub enum Verdict {
    Pass,
    Fail(Seq<char>),
    Skip(Seq<char>),
}

pub open spec fn verdict(r: TR) -> Verdict {
    match r {
        Ok(_) => Verdict::Pass,
        Err(TestErr::Fail(m)) => Verdict::Fail(m@),
        Err(TestErr::Skip(m)) => Verdict::Skip(m@),
    }
}

/// The line of a scenario.
pub open spec fn outcome(name: Seq<char>, v: Verdict) -> Seq<char> {
    match v {
        Verdict::Pass => "  \x1b[32mPASS\x1b[0m  "@ + name,
        Verdict::Skip(m) => "  \x1b[33mSKIP\x1b[0m  "@ + name + " — "@ + m,
        Verdict::Fail(m) => "  \x1b[31mFAIL\x1b[0m  "@ + name + " — "@ + m,
    }
}

/// The line of a scenario.
pub fn outcome_line(name: &str, r: &TR) -> (line: String)
    ensures
        line@ == outcome(name@, verdict(*r)),
{
    match r {
        Ok(_) => {
            let mut line = String::from_str("  \x1b[32mPASS\x1b[0m  ");
            line.append(name);
            line
        },
        Err(TestErr::Skip(m)) => {
            let mut line = String::from_str("  \x1b[33mSKIP\x1b[0m  ");
            line.append(name);
            line.append(" — ");
            line.append(m.as_str());
            line
        },
        Err(TestErr::Fail(m)) => {
            let mut line = String::from_str("  \x1b[31mFAIL\x1b[0m  ");
            line.append(name);
            line.append(" — ");
            line.append(m.as_str());
            line
        },
    }
}

// ---- the tally -----------------------------------------------------------------------

/// How the scenarios came out.
pub struct Tally {
    pub pass: u32,
    pub fail: u32,
    pub skip: u32,
    /// Names and texts of those that failed, in order.
    pub failures: Vec<(String, String)>,
}

/// The same, by characters.
pub struct Score {
    pub pass: nat,
    pub fail: nat,
    pub skip: nat,
    pub failures: Seq<(Seq<char>, Seq<char>)>,
}

/// Names and texts by characters.
pub open spec fn pairs(v: Seq<(String, String)>) -> Seq<(Seq<char>, Seq<char>)> {
    Seq::new(v.len(), |i: int| (v[i].0@, v[i].1@))
}

impl View for Tally {
    type V = Score;

    open spec fn view(&self) -> Score {
        Score {
            pass: self.pass as nat,
            fail: self.fail as nat,
            skip: self.skip as nat,
            failures: pairs(self.failures@),
        }
    }
}

impl Score {
    /// One more scenario.
    pub open spec fn with(self, name: Seq<char>, v: Verdict) -> Score {
        match v {
            Verdict::Pass => Score { pass: self.pass + 1, ..self },
            Verdict::Skip(_) => Score { skip: self.skip + 1, ..self },
            Verdict::Fail(m) => Score {
                fail: self.fail + 1,
                failures: self.failures.push((name, m)),
                ..self
            },
        }
    }

    /// The number of scenarios.
    pub open spec fn total(self) -> nat {
        self.pass + self.fail + self.skip
    }

    /// The lines after the last scenario.
    pub open spec fn summary(self) -> Seq<Seq<char>> {
        seq![
            "\n----------------------------------------"@,
            "PASS "@ + text::decimal(self.pass) + "   \x1b[31mFAIL "@ + text::decimal(self.fail)
                + "\x1b[0m   \x1b[33mSKIP "@ + text::decimal(self.skip) + "\x1b[0m"@,
        ] + (if self.failures.len() == 0 {
            Seq::empty()
        } else {
            seq!["\nПровалы (кандидаты в баги реализации):"@] + Seq::new(
                self.failures.len(),
                |i: int| failure(self.failures[i]),
            )
        })
    }
}

/// The line of a failure.
pub open spec fn failure(f: (Seq<char>, Seq<char>)) -> Seq<char> {
    "  - "@ + f.0 + ": "@ + f.1
}

impl Tally {
    pub fn new() -> (t: Tally)
        ensures
            t@ == (Score { pass: 0, fail: 0, skip: 0, failures: Seq::empty() }),
    {
        let t = Tally { pass: 0, fail: 0, skip: 0, failures: Vec::new() };
        assert(pairs(t.failures@) =~= Seq::empty());
        t
    }

    /// Counts one more scenario.
    pub fn record(&mut self, name: &str, r: &TR)
        requires
            old(self)@.total() < u32::MAX,
        ensures
            final(self)@ == old(self)@.with(name@, verdict(*r)),
    {
        match r {
            Ok(_) => {
                self.pass = self.pass + 1;
            },
            Err(TestErr::Skip(_)) => {
                self.skip = self.skip + 1;
            },
            Err(TestErr::Fail(m)) => {
                self.fail = self.fail + 1;
                self.failures.push((name.to_owned(), m.clone()));
                assert(pairs(self.failures@) =~= pairs(old(self).failures@).push((name@, m@)));
            },
        }
    }

    /// The lines after the last scenario.
    pub fn summary(&self) -> (lines: Vec<String>)
        ensures
            words::texts(lines@) == self@.summary(),
    {
        let mut lines: Vec<String> = Vec::new();
        lines.push(String::from_str("\n----------------------------------------"));
        let mut line = String::from_str("PASS ");
        line.append(text::dec(self.pass as u64).as_str());
        line.append("   \x1b[31mFAIL ");
        line.append(text::dec(self.fail as u64).as_str());
        line.append("\x1b[0m   \x1b[33mSKIP ");
        line.append(text::dec(self.skip as u64).as_str());
        line.append("\x1b[0m");
        lines.push(line);
        if self.failures.len() > 0 {
            lines.push(String::from_str("\nПровалы (кандидаты в баги реализации):"));
            let ghost head = words::texts(lines@);
            let ghost fs = self@.failures;
            let mut i: usize = 0;
            while i < self.failures.len()
                invariant
                    i <= self.failures.len(),
                    fs == self@.failures,
                    words::texts(lines@) =~= head + Seq::new(
                        i as nat,
                        |j: int| failure(fs[j]),
                    ),
                decreases self.failures.len() - i,
            {
                let ghost before = words::texts(lines@);
                let mut line = String::from_str("  - ");
                line.append(self.failures[i].0.as_str());
                line.append(": ");
                line.append(self.failures[i].1.as_str());
                assert(line@ == failure(fs[i as int]));
                lines.push(line);
                assert(words::texts(lines@) =~= before.push(line@));
                i = i + 1;
            }
        }
        assert(words::texts(lines@) =~= self@.summary());
        lines
    }

    /// One where a scenario failed, else zero.
    pub fn exit_code(&self) -> (code: i32)
        ensures
            code == if self@.fail > 0 {
                1int
            } else {
                0
            },
    {
        if self.fail > 0 {
            1
        } else {
            0
        }
    }
}

/// Every scenario counts once: the code is one exactly where a failure is on record.
pub proof fn failures_are_counted(s: Score, name: Seq<char>, v: Verdict)
    requires
        s.failures.len() == s.fail,
    ensures
        s.with(name, v).failures.len() == s.with(name, v).fail,
        s.with(name, v).total() == s.total() + 1,
        v is Fail <==> s.with(name, v).fail > s.fail,
{
}

} // verus!
