//! Edits within single lines, planned on the text as it was read and made
//! from the last to the first, so that no edit moves the place of one that is
//! still to come.

use vstd::prelude::*;
use vstd::string::*;
use crate::buffer::{replace_chars, replaced, SourceBuffer};
use crate::chain::Position;

verus! {

/// The pieces of text that a rewrite puts in.
#[derive(Clone, Copy, Debug, PartialEq, Eq, Structural)]
pub enum Token {
    /// No text: the range is deleted.
    Nothing,
    /// The keyword of a conditional, and a space.
    If,
    /// The operator that joins two conditions, and a space.
    And,
    /// An opening parenthesis.
    Open,
    /// A closing parenthesis.
    Close,
}

impl Token {
    /// The characters of the token.
    pub open spec fn text(self) -> Seq<char> {
        match self {
            Token::Nothing => Seq::<char>::empty(),
            Token::If => seq!['i', 'f', ' '],
            Token::And => seq!['&', '&', ' '],
            Token::Open => seq!['('],
            Token::Close => seq![')'],
        }
    }

    /// The token as text.
    pub fn as_str(self) -> (text: &'static str)
        ensures
            text@ == self.text(),
    {
        proof {
            reveal_strlit("");
            reveal_strlit("if ");
            reveal_strlit("&& ");
            reveal_strlit("(");
            reveal_strlit(")");
        }
        let text = match self {
            Token::Nothing => "",
            Token::If => "if ",
            Token::And => "&& ",
            Token::Open => "(",
            Token::Close => ")",
        };
        assert(text@ =~= self.text());
        text
    }
}

/// One edit: the characters from `at` up to `until`, both on one line, give
/// way to `token`. With `at` equal to `until` and no token the edit changes
/// nothing and only marks a place that has to exist.
#[derive(Clone, Copy, Debug, PartialEq, Eq, Structural)]
pub struct Edit {
    pub at: Position,
    pub until: Position,
    pub token: Token,
}

impl Edit {
    /// The edit's range lies on a line of `lines` and within it.
    pub open spec fn fits(self, lines: Seq<Seq<char>>) -> bool {
        &&& 1 <= self.at.line <= lines.len()
        &&& self.until.line == self.at.line
        &&& self.at.column <= self.until.column <= lines[self.at.line - 1].len()
    }

    /// The edit ends before `next` starts.
    pub open spec fn precedes(self, next: Edit) -> bool {
        self.until.line < next.at.line || (self.until.line == next.at.line
            && self.until.column <= next.at.column)
    }

    /// `lines` with this edit made.
    pub open spec fn applied(self, lines: Seq<Seq<char>>) -> Seq<Seq<char>> {
        lines.update(
            self.at.line - 1,
            replaced(
                lines[self.at.line - 1],
                self.token.text(),
                self.at.column as int,
                self.until.column as int,
            ),
        )
    }
}

/// The `i`-th edit lies within its line and behind the edit before it.
pub open spec fn well_placed(lines: Seq<Seq<char>>, edits: Seq<Edit>, i: int) -> bool {
    &&& edits[i].fits(lines)
    &&& i > 0 ==> edits[i - 1].precedes(edits[i])
}

/// Every edit lies within its line, and the edits follow one another in the
/// text without overlap.
pub open spec fn all_well_placed(lines: Seq<Seq<char>>, edits: Seq<Edit>) -> bool {
    forall|i: int| 0 <= i < edits.len() ==> well_placed(lines, edits, i)
}

/// The index of the first edit from `from` on that is not well placed, if
/// there is one.
pub open spec fn misplaced_from(lines: Seq<Seq<char>>, edits: Seq<Edit>, from: int) -> Option<int>
    decreases edits.len() - from,
{
    if from < 0 || from >= edits.len() {
        None
    } else if !well_placed(lines, edits, from) {
        Some(from)
    } else {
        misplaced_from(lines, edits, from + 1)
    }
}

/// The index of the first edit that is not well placed, if there is one.
pub open spec fn misplaced(lines: Seq<Seq<char>>, edits: Seq<Edit>) -> Option<int> {
    misplaced_from(lines, edits, 0)
}

/// `lines` with all of `edits` made, the last first.
pub open spec fn applied_all(lines: Seq<Seq<char>>, edits: Seq<Edit>) -> Seq<Seq<char>>
    decreases edits.len(),
{
    if edits.len() == 0 {
        lines
    } else {
        applied_all(edits.last().applied(lines), edits.drop_last())
    }
}

/// From `from` on, either every edit is well placed, or the first that is
/// not is the one found.
pub proof fn lemma_misplaced_from(lines: Seq<Seq<char>>, edits: Seq<Edit>, from: int)
    requires
        0 <= from <= edits.len(),
    ensures
        match misplaced_from(lines, edits, from) {
            Some(i) => {
                &&& from <= i < edits.len()
                &&& !well_placed(lines, edits, i)
                &&& forall|j: int| from <= j < i ==> well_placed(lines, edits, j)
            },
            None => forall|j: int| from <= j < edits.len() ==> well_placed(lines, edits, j),
        },
    decreases edits.len() - from,
{
    if from < edits.len() && well_placed(lines, edits, from) {
        lemma_misplaced_from(lines, edits, from + 1);
    }
}

/// No edit is found misplaced exactly where all are well placed.
pub proof fn lemma_none_misplaced(lines: Seq<Seq<char>>, edits: Seq<Edit>)
    ensures
        misplaced(lines, edits) is None <==> all_well_placed(lines, edits),
{
    lemma_misplaced_from(lines, edits, 0);
}

/// Well placed edits follow one another in the text.
pub proof fn lemma_edits_ascend(lines: Seq<Seq<char>>, edits: Seq<Edit>, i: int, j: int)
    requires
        all_well_placed(lines, edits),
        0 <= i < j < edits.len(),
    ensures
        edits[i].precedes(edits[j]),
    decreases j - i,
{
    assert(well_placed(lines, edits, j));
    assert(well_placed(lines, edits, j - 1));
    if i < j - 1 {
        lemma_edits_ascend(lines, edits, i, j - 1);
    }
}

/// After its last edit, the remaining edits are well placed in what that edit
/// leaves.
pub proof fn lemma_rest_well_placed(lines: Seq<Seq<char>>, edits: Seq<Edit>)
    requires
        edits.len() > 0,
        all_well_placed(lines, edits),
    ensures
        all_well_placed(edits.last().applied(lines), edits.drop_last()),
        edits.last().applied(lines).len() == lines.len(),
{
    let after = edits.last().applied(lines);
    let rest = edits.drop_last();
    assert(well_placed(lines, edits, edits.len() - 1));
    assert forall|i: int| 0 <= i < rest.len() implies well_placed(after, rest, i) by {
        assert(well_placed(lines, edits, i));
        lemma_edits_ascend(lines, edits, i, edits.len() - 1);
    }
}

impl SourceBuffer {
    /// The first of `edits` that lies outside its line or not behind the edit
    /// before it, if there is one.
    pub fn first_misplaced(&self, edits: &Vec<Edit>) -> (found: Option<usize>)
        ensures
            found is None <==> all_well_placed(self@, edits@),
            found is None <==> misplaced(self@, edits@) is None,
            found matches Some(i) ==> i < edits@.len() && misplaced(self@, edits@) == Some(i as int),
    {
        let mut i: usize = 0;
        while i < edits.len()
            invariant
                i <= edits@.len(),
                forall|j: int| 0 <= j < i ==> well_placed(self@, edits@, j),
                misplaced_from(self@, edits@, i as int) == misplaced(self@, edits@),
            decreases edits@.len() - i,
        {
            let edit = edits[i];
            let on_a_line = 1 <= edit.at.line && edit.at.line <= self.lines.len();
            let fits = on_a_line && edit.until.line == edit.at.line && edit.at.column
                <= edit.until.column && edit.until.column <= self.lines[edit.at.line
                - 1].as_str().unicode_len();
            let follows = i == 0 || edits[i - 1].until.line < edit.at.line || (edits[i
                - 1].until.line == edit.at.line && edits[i - 1].until.column <= edit.at.column);
            if !(fits && follows) {
                assert(!well_placed(self@, edits@, i as int));
                return Some(i);
            }
            i += 1;
        }
        None
    }

    /// Makes `edits`, the last first.
    pub fn apply(&mut self, edits: &Vec<Edit>)
        requires
            all_well_placed(old(self)@, edits@),
        ensures
            final(self)@ == applied_all(old(self)@, edits@),
            final(self)@.len() == old(self)@.len(),
    {
        let ghost before = self@;
        let ghost mut front_line: int = before.len() as int + 1;
        let ghost mut front_column: int = 0;
        let mut k: usize = edits.len();
        assert(edits@.subrange(0, k as int) == edits@);
        assert(k > 0 ==> well_placed(before, edits@, k - 1));
        while k > 0
            invariant
                k <= edits@.len(),
                all_well_placed(before, edits@),
                self@.len() == before.len(),
                applied_all(self@, edits@.subrange(0, k as int)) == applied_all(before, edits@),
                1 <= front_line,
                forall|j: int| 0 <= j < front_line - 1 && j < before.len() ==> self@[j] == before[j],
                front_line <= before.len() ==> {
                    &&& 0 <= front_column <= before[front_line - 1].len()
                    &&& front_column <= self@[front_line - 1].len()
                    &&& self@[front_line - 1].subrange(0, front_column) == before[front_line
                        - 1].subrange(0, front_column)
                },
                k > 0 ==> edits@[k - 1].until.line < front_line || (edits@[k - 1].until.line
                    == front_line && edits@[k - 1].until.column <= front_column),
            decreases k,
        {
            let edit = edits[k - 1];
            let ghost current = self@;
            assert(well_placed(before, edits@, k - 1));
            assert(edit.fits(current));
            let at = edit.at.line - 1;
            let mut line = self.lines[at].clone();
            replace_chars(&mut line, edit.token.as_str(), edit.at.column, edit.until.column);
            self.lines.set(at, line);
            proof {
                assert(self@ =~= edit.applied(current));
                assert(edits@.subrange(0, k as int).last() == edit);
                assert(edits@.subrange(0, k as int).drop_last() == edits@.subrange(0, k - 1));
                assert(self@[at as int].subrange(0, edit.at.column as int) =~= before[at as int].subrange(
                    0,
                    edit.at.column as int,
                )) by {
                    assert(current[at as int].subrange(0, edit.at.column as int)
                        =~= before[at as int].subrange(0, edit.at.column as int)) by {
                        if at + 1 == front_line {
                            assert(current[at as int].subrange(0, edit.at.column as int)
                                =~= current[at as int].subrange(0, front_column).subrange(
                                0,
                                edit.at.column as int,
                            ));
                            assert(before[at as int].subrange(0, edit.at.column as int)
                                =~= before[at as int].subrange(0, front_column).subrange(
                                0,
                                edit.at.column as int,
                            ));
                        }
                    }
                }
                front_line = edit.at.line as int;
                front_column = edit.at.column as int;
                if k - 1 > 0 {
                    assert(well_placed(before, edits@, k - 2));
                }
            }
            k -= 1;
        }
        assert(edits@.subrange(0, 0).len() == 0);
    }
}

} // verus!
