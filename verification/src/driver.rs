//! One pass after another: a locator looks at the text, the driver decides
//! what follows from what it found.

use vstd::prelude::*;
use crate::buffer::split;
use crate::chain::{ChainView, IfChain, Site};
use crate::grammar::{assembled, shape_error, Clause, ShapeError};
use crate::progress::{bangs, lemma_pass_takes_a_bang};
use crate::rewrite::{fits, if_to_let_chain, rewritten, span_error, SpanError};

verus! {

/// What a locator reports of a text: the first invocation in it, if the text
/// can be read at all and holds one.
#[derive(Clone, Debug, PartialEq, Eq)]
pub enum Scan {
    /// The text is no valid source file; `message` is the parser's.
    Unparsable { line: usize, message: String },
    /// The text holds no invocation.
    Absent,
    /// The body of the first invocation cannot be read item by item;
    /// `message` is the parser's.
    Malformed { line: usize, message: String },
    /// The first invocation, and the items of its body in their order.
    Found { site: Site, clauses: Vec<Clause> },
}

/// What a diagnostic says.
#[derive(Clone, Debug, PartialEq, Eq)]
pub enum Finding {
    /// The text is no valid source file.
    Unparsable(String),
    /// The body of an invocation cannot be read item by item.
    Malformed(String),
    /// The items of an invocation's body are no chain.
    Shape(ShapeError),
    /// The positions reported for an invocation do not belong to the text.
    Span(SpanError),
    /// Lines stand between the invocation's opening and its first condition;
    /// they now follow the conditional's first line and may need a hand.
    LeadingGap,
}

/// A finding and the line it is about.
#[derive(Clone, Debug, PartialEq, Eq)]
pub struct Diagnostic {
    pub line: usize,
    pub finding: Finding,
}

/// The line before the first condition, where that line is not the one of the
/// invocation's `!`: a comment or a blank line stands between the two.
pub open spec fn leading_gap(chain: ChainView, site: Site) -> Option<usize> {
    let line = chain.statements[0].start().line;
    if line >= 1 && line - 1 > site.bang_token.line {
        Some((line - 1) as usize)
    } else {
        None
    }
}

/// Whether a pass on `text` rewrites it, given what the locator found: an
/// invocation whose body is a chain and whose positions belong to the text.
pub open spec fn rewrites(text: Seq<char>, scan: Scan) -> bool {
    match scan {
        Scan::Found { site, clauses } => shape_error(clauses@) is None && fits(
            split(text),
            assembled(clauses@),
            site,
        ),
        _ => false,
    }
}

/// The text after a pass on `text`.
pub open spec fn next_text(text: Seq<char>, deindent: int, scan: Scan) -> Seq<char> {
    match scan {
        Scan::Found { site, clauses } => if rewrites(text, scan) {
            rewritten(text, assembled(clauses@), site, deindent)
        } else {
            text
        },
        _ => text,
    }
}

/// What a pass on `text` has to say.
pub open spec fn findings(text: Seq<char>, scan: Scan) -> Seq<Diagnostic> {
    match scan {
        Scan::Unparsable { line, message } => seq![
            Diagnostic { line, finding: Finding::Unparsable(message) },
        ],
        Scan::Absent => Seq::<Diagnostic>::empty(),
        Scan::Malformed { line, message } => seq![
            Diagnostic { line, finding: Finding::Malformed(message) },
        ],
        Scan::Found { site, clauses } => match shape_error(clauses@) {
            Some(error) => seq![
                Diagnostic { line: site.span.start.line, finding: Finding::Shape(error) },
            ],
            None => match span_error(split(text), assembled(clauses@), site) {
                Some(error) => seq![
                    Diagnostic { line: error.at.line, finding: Finding::Span(error) },
                ],
                None => match leading_gap(assembled(clauses@), site) {
                    Some(line) => seq![Diagnostic { line, finding: Finding::LeadingGap }],
                    None => Seq::<Diagnostic>::empty(),
                },
            },
        },
    }
}

/// One pass: rewrites `contents` if `scan`, the locator's report of it, holds
/// an invocation that can be collapsed, and leaves it as it is otherwise.
/// Says whether it rewrote, in which case the text wants another look, and
/// adds to `diagnostics` what it found on the way.
pub fn pass(
    contents: &mut String,
    deindent: usize,
    scan: &Scan,
    diagnostics: &mut Vec<Diagnostic>,
) -> (modified: bool)
    ensures
        modified == rewrites(old(contents)@, *scan),
        final(contents)@ == next_text(old(contents)@, deindent as int, *scan),
        final(diagnostics)@ == old(diagnostics)@ + findings(old(contents)@, *scan),
{
    let ghost said = diagnostics@;
    let ghost text = contents@;
    match scan {
        Scan::Unparsable { line, message } => {
            diagnostics.push(
                Diagnostic { line: *line, finding: Finding::Unparsable(message.clone()) },
            );
            assert(diagnostics@ =~= said + findings(text, *scan));
            false
        },
        Scan::Absent => {
            assert(diagnostics@ =~= said + findings(text, *scan));
            false
        },
        Scan::Malformed { line, message } => {
            diagnostics.push(
                Diagnostic { line: *line, finding: Finding::Malformed(message.clone()) },
            );
            assert(diagnostics@ =~= said + findings(text, *scan));
            false
        },
        Scan::Found { site, clauses } => {
            match IfChain::assemble(clauses) {
                Err(error) => {
                    diagnostics.push(
                        Diagnostic { line: site.span.start.line, finding: Finding::Shape(error) },
                    );
                    assert(diagnostics@ =~= said + findings(text, *scan));
                    false
                },
                Ok(chain) => {
                    match if_to_let_chain(contents.as_str(), deindent, &chain, site) {
                        Err(error) => {
                            diagnostics.push(
                                Diagnostic { line: error.at.line, finding: Finding::Span(error) },
                            );
                            assert(diagnostics@ =~= said + findings(text, *scan));
                            false
                        },
                        Ok(rewritten) => {
                            let line = chain.statements[0].start().line;
                            if line >= 1 && line - 1 > site.bang_token.line {
                                diagnostics.push(
                                    Diagnostic { line: line - 1, finding: Finding::LeadingGap },
                                );
                            }
                            assert(diagnostics@ =~= said + findings(text, *scan));
                            *contents = rewritten;
                            true
                        },
                    }
                },
            }
        },
    }
}

/// The text after the passes that `scans` drive, one after another.
pub open spec fn text_after(text: Seq<char>, deindent: int, scans: Seq<Scan>) -> Seq<char>
    decreases scans.len(),
{
    if scans.len() == 0 {
        text
    } else {
        next_text(text_after(text, deindent, scans.drop_last()), deindent, scans.last())
    }
}

/// What the passes that `scans` drive have to say, one after another.
pub open spec fn findings_after(text: Seq<char>, deindent: int, scans: Seq<Scan>) -> Seq<
    Diagnostic,
>
    decreases scans.len(),
{
    if scans.len() == 0 {
        Seq::<Diagnostic>::empty()
    } else {
        findings_after(text, deindent, scans.drop_last()) + findings(
            text_after(text, deindent, scans.drop_last()),
            scans.last(),
        )
    }
}

/// `scan` is an answer of `locate` to a text that reads `text`.
pub open spec fn answers<F: Fn(&str) -> Scan>(locate: F, text: Seq<char>, scan: Scan) -> bool {
    exists|given: &str| given@ == text && call_ensures(locate, (given,), scan)
}

/// `scans` drive passes that all rewrite, each scan an answer of `locate` to
/// the text as the passes before it left it.
pub open spec fn all_rewrite<F: Fn(&str) -> Scan>(
    locate: F,
    text: Seq<char>,
    deindent: int,
    scans: Seq<Scan>,
) -> bool
    decreases scans.len(),
{
    scans.len() == 0 || {
        &&& all_rewrite(locate, text, deindent, scans.drop_last())
        &&& answers(locate, text_after(text, deindent, scans.drop_last()), scans.last())
        &&& rewrites(text_after(text, deindent, scans.drop_last()), scans.last())
    }
}

/// `scans` and `last` make a whole run on `text`: the passes driven by
/// `scans` all rewrite, and the pass driven by `last` on what they leave does
/// not.
pub open spec fn runs<F: Fn(&str) -> Scan>(
    locate: F,
    text: Seq<char>,
    deindent: int,
    scans: Seq<Scan>,
    last: Scan,
) -> bool {
    &&& all_rewrite(locate, text, deindent, scans)
    &&& answers(locate, text_after(text, deindent, scans), last)
    &&& !rewrites(text_after(text, deindent, scans), last)
}

/// Rewrites every invocation in `contents`: asks `locate` for the first
/// invocation and makes a pass with the answer, again and again, until a
/// pass rewrites nothing, because nothing is found any more or because it
/// fails. What earlier passes rewrote stays rewritten. Says whether any pass
/// rewrote, and adds to `diagnostics` what the passes found.
///
/// The work ends whatever `locate` answers: every rewriting pass takes a `!`
/// out of the text.
pub fn modify<F: Fn(&str) -> Scan>(
    contents: &mut String,
    deindent: usize,
    locate: F,
    diagnostics: &mut Vec<Diagnostic>,
) -> (modified: bool)
    requires
        forall|text: &str| call_requires(locate, (text,)),
    ensures
        exists|scans: Seq<Scan>, last: Scan|
            {
                &&& #[trigger] runs(locate, old(contents)@, deindent as int, scans, last)
                &&& final(contents)@ == text_after(old(contents)@, deindent as int, scans)
                &&& final(diagnostics)@ == old(diagnostics)@ + findings_after(
                    old(contents)@,
                    deindent as int,
                    scans,
                ) + findings(final(contents)@, last)
                &&& modified == (scans.len() > 0)
            },
        modified == (final(contents)@ != old(contents)@),
        bangs(final(contents)@) <= bangs(old(contents)@),
{
    let ghost start = contents@;
    let ghost said = diagnostics@;
    let ghost mut scans: Seq<Scan> = Seq::empty();
    let mut modified = false;
    loop
        invariant_except_break
            diagnostics@ == said + findings_after(start, deindent as int, scans),
        invariant
            forall|text: &str| call_requires(locate, (text,)),
            all_rewrite(locate, start, deindent as int, scans),
            contents@ == text_after(start, deindent as int, scans),
            modified == (scans.len() > 0),
            bangs(contents@) <= bangs(start),
            modified ==> bangs(contents@) < bangs(start),
        ensures
            exists|last: Scan|
                {
                    &&& #[trigger] runs(locate, start, deindent as int, scans, last)
                    &&& diagnostics@ == said + findings_after(start, deindent as int, scans)
                        + findings(contents@, last)
                },
            contents@ == text_after(start, deindent as int, scans),
            modified == (scans.len() > 0),
            bangs(contents@) <= bangs(start),
            modified ==> bangs(contents@) < bangs(start),
        decreases bangs(contents@),
    {
        let ghost before = contents@;
        let ghost heard = diagnostics@;
        let given = contents.as_str();
        let scan = locate(given);
        proof {
            lemma_pass_takes_a_bang(before, deindent as nat, scan);
            assert(answers(locate, before, scan));
        }
        if !pass(contents, deindent, &scan, diagnostics) {
            proof {
                assert(diagnostics@ == said + findings_after(start, deindent as int, scans)
                    + findings(contents@, scan));
                assert(runs(locate, start, deindent as int, scans, scan));
            }
            break ;
        }
        proof {
            let longer = scans.push(scan);
            assert(longer.drop_last() == scans);
            assert(longer.last() == scan);
            scans = longer;
        }
        modified = true;
    }
    modified
}

/// Where a driver stands.
#[derive(Clone, Copy, Debug, PartialEq, Eq, Structural)]
pub enum State {
    /// The text wants a look: it may hold an invocation.
    Scanning,
    /// The text holds no invocation any more.
    Done,
    /// A pass failed. What earlier passes rewrote stays rewritten.
    Failed,
}

/// The state after a pass made in state `Scanning`.
pub open spec fn next_state(text: Seq<char>, scan: Scan) -> State {
    if rewrites(text, scan) {
        State::Scanning
    } else if scan is Absent {
        State::Done
    } else {
        State::Failed
    }
}

/// A text on its way through the passes.
#[derive(Clone, Debug, PartialEq, Eq)]
pub struct Driver {
    /// The text as it stands.
    pub contents: String,
    /// By how many characters body lines are shifted to the left.
    pub deindent: usize,
    /// Whether a pass has rewritten the text.
    pub modified: bool,
    /// What the passes have found.
    pub diagnostics: Vec<Diagnostic>,
    pub state: State,
}

impl Driver {
    /// A driver for `contents`, about to look at it for the first time.
    pub fn new(contents: String, deindent: usize) -> (driver: Driver)
        ensures
            driver.contents == contents,
            driver.deindent == deindent,
            !driver.modified,
            driver.diagnostics@.len() == 0,
            driver.state == State::Scanning,
    {
        Driver { contents, deindent, modified: false, diagnostics: Vec::new(), state: State::Scanning }
    }

    /// Makes one pass with `scan`, the locator's report of the text as it
    /// stands. Rewriting keeps the driver scanning; a text without invocation
    /// ends the work, anything else fails it. A driver that is done or has
    /// failed stays as it is.
    pub fn step(&mut self, scan: &Scan)
        ensures
            final(self).deindent == old(self).deindent,
            old(self).state != State::Scanning ==> *final(self) == *old(self),
            old(self).state == State::Scanning ==> {
                &&& final(self).contents@ == next_text(
                    old(self).contents@,
                    old(self).deindent as int,
                    *scan,
                )
                &&& final(self).modified == (old(self).modified || rewrites(
                    old(self).contents@,
                    *scan,
                ))
                &&& final(self).diagnostics@ == old(self).diagnostics@ + findings(
                    old(self).contents@,
                    *scan,
                )
                &&& final(self).state == next_state(old(self).contents@, *scan)
            },
    {
        match self.state {
            State::Scanning => {
                if pass(&mut self.contents, self.deindent, scan, &mut self.diagnostics) {
                    self.modified = true;
                } else {
                    self.state = match scan {
                        Scan::Absent => State::Done,
                        _ => State::Failed,
                    };
                }
            },
            _ => {},
        }
    }
}

} // verus!
