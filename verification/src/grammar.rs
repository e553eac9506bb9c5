//! The text form of a program and its parser.
//!
//! A program is one or more rules. A rule is written
//! `when (conditions) { actions }`, with a comma between conditions and
//! each action ending as its kind says. White space may stand between the
//! parts. Every function named `..._at` or `..._from` below says what is
//! read at a place of the text, and where reading goes on after it.
use crate::ast::{Action, ActionView, CmpOpcode, Condition, ConditionView, Glop, Match, MatchView};
use crate::error::Error;
use crate::text::{chars_of, string_from, views};
use crate::value::{path_of, Identifier};
use vstd::prelude::*;

verus! {

/// White space: blank, tab, line feed, carriage return.
pub open spec fn is_space(c: char) -> bool {
    c == ' ' || c == '\t' || c == '\n' || c == '\r'
}

/// A character of a name's segment: a letter, a digit, `_` or `-`.
pub open spec fn is_seg_char(c: char) -> bool {
    ('a' <= c && c <= 'z') || ('A' <= c && c <= 'Z') || ('0' <= c && c <= '9') || c == '_' || c
        == '-'
}

/// A character of a word: one of a segment, or a dot.
pub open spec fn is_word_char(c: char) -> bool {
    is_seg_char(c) || c == '.'
}

/// Where the white space that starts at `i` ends.
pub open spec fn spaces_end(s: Seq<char>, i: int) -> int
    decreases s.len() - i,
{
    if 0 <= i < s.len() && is_space(s[i]) {
        spaces_end(s, i + 1)
    } else {
        i
    }
}

/// Where the segment characters that start at `i` end.
pub open spec fn seg_end(s: Seq<char>, i: int) -> int
    decreases s.len() - i,
{
    if 0 <= i < s.len() && is_seg_char(s[i]) {
        seg_end(s, i + 1)
    } else {
        i
    }
}

/// Where the word characters that start at `i` end.
pub open spec fn word_end(s: Seq<char>, i: int) -> int
    decreases s.len() - i,
{
    if 0 <= i < s.len() && is_word_char(s[i]) {
        word_end(s, i + 1)
    } else {
        i
    }
}

/// Where the command that starts at `i` ends: at the first `;` or line
/// feed, or at the end of the text.
pub open spec fn command_end(s: Seq<char>, i: int) -> int
    decreases s.len() - i,
{
    if 0 <= i < s.len() && s[i] != ';' && s[i] != '\n' {
        command_end(s, i + 1)
    } else {
        i
    }
}

/// The text holds `lit` at `i`.
pub open spec fn at(s: Seq<char>, i: int, lit: Seq<char>) -> bool {
    0 <= i && i + lit.len() <= s.len() && s.subrange(i, i + lit.len()) == lit
}

/// Where the script text that starts at `i` ends: at the first `!#`, or
/// at the end of the text where there is none.
pub open spec fn script_end(s: Seq<char>, i: int) -> int
    decreases s.len() - i,
{
    if 0 <= i < s.len() && !at(s, i, "!#"@) {
        script_end(s, i + 1)
    } else {
        i
    }
}

/// The keyword `lit` at `i` with white space after it: where that white
/// space ends.
pub open spec fn keyword_at(s: Seq<char>, i: int, lit: Seq<char>) -> Option<int> {
    if at(s, i, lit) && spaces_end(s, i + lit.len()) > i + lit.len() {
        Some(spaces_end(s, i + lit.len()))
    } else {
        None
    }
}

/// Every segment of the path has a character.
pub open spec fn full_segments(path: Seq<Seq<char>>) -> bool {
    forall|k: int| 0 <= k < path.len() ==> (#[trigger] path[k]).len() > 0
}

/// A name at `i`: the word there, where each of its segments has a
/// character.
pub open spec fn ident_at(s: Seq<char>, i: int) -> Option<(Seq<Seq<char>>, int)> {
    let j = word_end(s, i);
    if 0 <= i < j <= s.len() && full_segments(path_of(s.subrange(i, j))) {
        Some((path_of(s.subrange(i, j)), j))
    } else {
        None
    }
}

/// A topic at `i`: the segment characters there, at least one.
pub open spec fn topic_at(s: Seq<char>, i: int) -> Option<(Seq<char>, int)> {
    let j = seg_end(s, i);
    if 0 <= i < j <= s.len() {
        Some((s.subrange(i, j), j))
    } else {
        None
    }
}

/// A literal at `i`: the word characters there, at least one.
pub open spec fn word_at(s: Seq<char>, i: int) -> Option<(Seq<char>, int)> {
    let j = word_end(s, i);
    if 0 <= i < j <= s.len() {
        Some((s.subrange(i, j), j))
    } else {
        None
    }
}

/// A comparison at `i`: a name, `==` or `!=`, and a literal.
pub open spec fn comparison_at(s: Seq<char>, i: int) -> Option<(ConditionView, int)> {
    match ident_at(s, i) {
        Some((id, j)) => {
            let k = spaces_end(s, j);
            if at(s, k, "=="@) || at(s, k, "!="@) {
                let op = if at(s, k, "=="@) {
                    CmpOpcode::Eq
                } else {
                    CmpOpcode::NotEq
                };
                match word_at(s, spaces_end(s, k + 2)) {
                    Some((rhs, n)) => Some((ConditionView::Cmp(id, op, rhs), n)),
                    None => None,
                }
            } else {
                None
            }
        },
        None => None,
    }
}

/// A condition at `i`: `message` and a topic, `is_set` and a name, or a
/// comparison.
pub open spec fn condition_at(s: Seq<char>, i: int) -> Option<(ConditionView, int)> {
    if let Some(j) = keyword_at(s, i, "message"@) {
        match topic_at(s, j) {
            Some((topic, k)) => Some((ConditionView::Message(topic), k)),
            None => None,
        }
    } else if let Some(j) = keyword_at(s, i, "is_set"@) {
        match ident_at(s, j) {
            Some((id, k)) => Some((ConditionView::IsSet(id), k)),
            None => None,
        }
    } else {
        comparison_at(s, i)
    }
}

/// The conditions from `i` on, after those in `done`: one condition, and
/// after each comma one more. Reading goes on after the white space that
/// follows the last of them.
pub open spec fn conditions_from(s: Seq<char>, i: int, done: Seq<ConditionView>) -> Option<
    (Seq<ConditionView>, int),
>
    decreases s.len() - i,
{
    match condition_at(s, i) {
        Some((c, j)) => {
            let k = spaces_end(s, j);
            if at(s, k, ","@) {
                if i < spaces_end(s, k + 1) <= s.len() {
                    conditions_from(s, spaces_end(s, k + 1), done.push(c))
                } else {
                    None
                }
            } else {
                Some((done.push(c), k))
            }
        },
        None => None,
    }
}

/// What follows the keyword `set`: a name, white space, a literal and `;`.
pub open spec fn set_at(s: Seq<char>, i: int) -> Option<(ActionView, int)> {
    match ident_at(s, i) {
        Some((id, j)) => if spaces_end(s, j) > j {
            match word_at(s, spaces_end(s, j)) {
                Some((value, k)) => if at(s, spaces_end(s, k), ";"@) {
                    Some((ActionView::SetVar(id, value), spaces_end(s, k) + 1))
                } else {
                    None
                },
                None => None,
            }
        } else {
            None
        },
        None => None,
    }
}

/// What follows the keyword `unset`: a name and `;`.
pub open spec fn unset_at(s: Seq<char>, i: int) -> Option<(ActionView, int)> {
    match ident_at(s, i) {
        Some((id, j)) => if at(s, spaces_end(s, j), ";"@) {
            Some((ActionView::UnsetVar(id), spaces_end(s, j) + 1))
        } else {
            None
        },
        None => None,
    }
}

/// What follows the keyword `acknowledge`: a topic and `;`.
pub open spec fn acknowledge_at(s: Seq<char>, i: int) -> Option<(ActionView, int)> {
    match topic_at(s, i) {
        Some((topic, j)) => if at(s, spaces_end(s, j), ";"@) {
            Some((ActionView::Acknowledge(topic), spaces_end(s, j) + 1))
        } else {
            None
        },
        None => None,
    }
}

/// What follows the keyword `exec`: a command of at least one character,
/// which ends before the `;` on its line.
pub open spec fn exec_at(s: Seq<char>, i: int) -> Option<(ActionView, int)> {
    let j = command_end(s, i);
    if 0 <= i < j && at(s, j, ";"@) {
        Some((ActionView::Exec(s.subrange(i, j)), j + 1))
    } else {
        None
    }
}

/// What follows the keyword `script`: a text that starts with `#!` and
/// ends before the first `!#` after that.
pub open spec fn script_at(s: Seq<char>, i: int) -> Option<(ActionView, int)> {
    let j = script_end(s, i + 2);
    if at(s, i, "#!"@) && at(s, j, "!#"@) {
        Some((ActionView::Script(s.subrange(i, j)), j + 2))
    } else {
        None
    }
}

/// An action at `i`, as its keyword says.
pub open spec fn action_at(s: Seq<char>, i: int) -> Option<(ActionView, int)> {
    if let Some(j) = keyword_at(s, i, "set"@) {
        set_at(s, j)
    } else if let Some(j) = keyword_at(s, i, "unset"@) {
        unset_at(s, j)
    } else if let Some(j) = keyword_at(s, i, "acknowledge"@) {
        acknowledge_at(s, j)
    } else if let Some(j) = keyword_at(s, i, "exec"@) {
        exec_at(s, j)
    } else if let Some(j) = keyword_at(s, i, "script"@) {
        script_at(s, j)
    } else {
        None
    }
}

/// The actions from `i` on, after those in `done`: one action, and more
/// until `}` follows. Reading goes on after that `}`.
pub open spec fn actions_from(s: Seq<char>, i: int, done: Seq<ActionView>) -> Option<
    (Seq<ActionView>, int),
>
    decreases s.len() - i,
{
    match action_at(s, i) {
        Some((a, j)) => {
            let k = spaces_end(s, j);
            if at(s, k, "}"@) {
                Some((done.push(a), k + 1))
            } else if i < k <= s.len() {
                actions_from(s, k, done.push(a))
            } else {
                None
            }
        },
        None => None,
    }
}

/// A rule at `i`: `when`, the conditions in round brackets and the actions
/// in curly ones.
pub open spec fn match_at(s: Seq<char>, i: int) -> Option<(MatchView, int)> {
    let open = spaces_end(s, i + 4);
    if at(s, i, "when"@) && at(s, open, "("@) {
        match conditions_from(s, spaces_end(s, open + 1), Seq::empty()) {
            Some((conditions, close)) => {
                let brace = spaces_end(s, close + 1);
                if at(s, close, ")"@) && at(s, brace, "{"@) {
                    match actions_from(s, spaces_end(s, brace + 1), Seq::empty()) {
                        Some((actions, end)) => Some((MatchView { conditions, actions }, end)),
                        None => None,
                    }
                } else {
                    None
                }
            },
            None => None,
        }
    } else {
        None
    }
}

/// The rules from `i` on, after those in `done`: one rule, and more until
/// the text ends.
pub open spec fn matches_from(s: Seq<char>, i: int, done: Seq<MatchView>) -> Option<Seq<MatchView>>
    decreases s.len() - i,
{
    match match_at(s, i) {
        Some((m, j)) => {
            let k = spaces_end(s, j);
            if k >= s.len() {
                Some(done.push(m))
            } else if i < k {
                matches_from(s, k, done.push(m))
            } else {
                None
            }
        },
        None => None,
    }
}

/// The program that a text writes, where it writes one.
pub open spec fn parsed(s: Seq<char>) -> Option<Seq<MatchView>> {
    matches_from(s, spaces_end(s, 0), Seq::empty())
}

fn space_char(c: char) -> (b: bool)
    ensures
        b == is_space(c),
{
    c == ' ' || c == '\t' || c == '\n' || c == '\r'
}

fn seg_char(c: char) -> (b: bool)
    ensures
        b == is_seg_char(c),
{
    ('a' <= c && c <= 'z') || ('A' <= c && c <= 'Z') || ('0' <= c && c <= '9') || c == '_' || c
        == '-'
}

fn skip_spaces(s: &Vec<char>, i: usize) -> (j: usize)
    requires
        i <= s.len(),
    ensures
        j == spaces_end(s@, i as int),
        i <= j <= s.len(),
{
    let mut j = i;
    while j < s.len() && space_char(s[j])
        invariant
            i <= j <= s.len(),
            spaces_end(s@, i as int) == spaces_end(s@, j as int),
        decreases s.len() - j,
    {
        j += 1;
    }
    j
}

fn skip_seg(s: &Vec<char>, i: usize) -> (j: usize)
    requires
        i <= s.len(),
    ensures
        j == seg_end(s@, i as int),
        i <= j <= s.len(),
{
    let mut j = i;
    while j < s.len() && seg_char(s[j])
        invariant
            i <= j <= s.len(),
            seg_end(s@, i as int) == seg_end(s@, j as int),
        decreases s.len() - j,
    {
        j += 1;
    }
    j
}

fn skip_word(s: &Vec<char>, i: usize) -> (j: usize)
    requires
        i <= s.len(),
    ensures
        j == word_end(s@, i as int),
        i <= j <= s.len(),
{
    let mut j = i;
    while j < s.len() && (seg_char(s[j]) || s[j] == '.')
        invariant
            i <= j <= s.len(),
            word_end(s@, i as int) == word_end(s@, j as int),
        decreases s.len() - j,
    {
        j += 1;
    }
    j
}

fn skip_command(s: &Vec<char>, i: usize) -> (j: usize)
    requires
        i <= s.len(),
    ensures
        j == command_end(s@, i as int),
        i <= j <= s.len(),
{
    let mut j = i;
    while j < s.len() && s[j] != ';' && s[j] != '\n'
        invariant
            i <= j <= s.len(),
            command_end(s@, i as int) == command_end(s@, j as int),
        decreases s.len() - j,
    {
        j += 1;
    }
    j
}

fn looking_at(s: &Vec<char>, i: usize, lit: &str) -> (b: bool)
    requires
        i <= s.len(),
    ensures
        b == at(s@, i as int, lit@),
{
    let want = chars_of(lit);
    if want.len() > s.len() - i {
        return false;
    }
    let mut k: usize = 0;
    while k < want.len()
        invariant
            k <= want@.len(),
            i + want.len() <= s.len(),
            want@ == lit@,
            forall|n: int| 0 <= n < k ==> s@[i + n] == want@[n],
        decreases want.len() - k,
    {
        if s[i + k] != want[k] {
            assert(s@.subrange(i as int, i + lit@.len())[k as int] != lit@[k as int]);
            return false;
        }
        k += 1;
    }
    assert(s@.subrange(i as int, i + lit@.len()) =~= lit@);
    true
}

fn script_stops(s: &Vec<char>, i: usize) -> (b: bool)
    requires
        i < s.len(),
    ensures
        b == at(s@, i as int, "!#"@),
{
    proof {
        reveal_strlit("!#");
    }
    if s[i] == '!' && i + 1 < s.len() && s[i + 1] == '#' {
        assert(s@.subrange(i as int, i + 2) =~= "!#"@);
        true
    } else {
        proof {
            if i + 2 <= s.len() {
                assert(s@.subrange(i as int, i + 2)[0] == s@[i as int]);
                assert(s@.subrange(i as int, i + 2)[1] == s@[i + 1]);
            }
        }
        false
    }
}

fn skip_script(s: &Vec<char>, i: usize) -> (j: usize)
    requires
        i <= s.len(),
    ensures
        j == script_end(s@, i as int),
        i <= j <= s.len(),
{
    let mut j = i;
    while j < s.len() && !script_stops(s, j)
        invariant
            i <= j <= s.len(),
            script_end(s@, i as int) == script_end(s@, j as int),
        decreases s.len() - j,
    {
        j += 1;
    }
    j
}

fn take_keyword(s: &Vec<char>, i: usize, lit: &str) -> (r: Option<usize>)
    requires
        i <= s.len(),
    ensures
        match r {
            Some(j) => keyword_at(s@, i as int, lit@) == Some(j as int) && i < j <= s.len(),
            None => keyword_at(s@, i as int, lit@) is None,
        },
{
    if !looking_at(s, i, lit) {
        return None;
    }
    let n = chars_of(lit).len();
    let j = skip_spaces(s, i + n);
    if j > i + n {
        Some(j)
    } else {
        None
    }
}

fn parse_ident(s: &Vec<char>, i: usize) -> (r: Option<(Vec<String>, usize)>)
    requires
        i <= s.len(),
    ensures
        match r {
            Some((id, j)) => ident_at(s@, i as int) == Some((views(id@), j as int)) && i < j
                <= s.len(),
            None => ident_at(s@, i as int) is None,
        },
{
    let j = skip_word(s, i);
    if j == i {
        return None;
    }
    let word = string_from(s, i, j);
    let id = Identifier::from_str(word.as_str());
    let mut k: usize = 0;
    while k < id.0.len()
        invariant
            k <= id.0@.len(),
            i < j <= s.len(),
            j == word_end(s@, i as int),
            id@ == path_of(s@.subrange(i as int, j as int)),
            forall|n: int| 0 <= n < k ==> (#[trigger] id@[n]).len() > 0,
        decreases id.0.len() - k,
    {
        if id.0[k].as_str().is_empty() {
            assert(id@[k as int].len() == 0);
            return None;
        }
        k += 1;
    }
    Some((id.0, j))
}

fn parse_topic(s: &Vec<char>, i: usize) -> (r: Option<(String, usize)>)
    requires
        i <= s.len(),
    ensures
        match r {
            Some((topic, j)) => topic_at(s@, i as int) == Some((topic@, j as int)) && i < j
                <= s.len(),
            None => topic_at(s@, i as int) is None,
        },
{
    let j = skip_seg(s, i);
    if j == i {
        return None;
    }
    Some((string_from(s, i, j), j))
}

fn parse_word(s: &Vec<char>, i: usize) -> (r: Option<(String, usize)>)
    requires
        i <= s.len(),
    ensures
        match r {
            Some((word, j)) => word_at(s@, i as int) == Some((word@, j as int)) && i < j
                <= s.len(),
            None => word_at(s@, i as int) is None,
        },
{
    let j = skip_word(s, i);
    if j == i {
        return None;
    }
    Some((string_from(s, i, j), j))
}

fn parse_comparison(s: &Vec<char>, i: usize) -> (r: Option<(Condition, usize)>)
    requires
        i <= s.len(),
    ensures
        match r {
            Some((c, j)) => comparison_at(s@, i as int) == Some((c@, j as int)) && i < j
                <= s.len(),
            None => comparison_at(s@, i as int) is None,
        },
{
    proof {
        reveal_strlit("==");
        reveal_strlit("!=");
    }
    let (id, j) = match parse_ident(s, i) {
        Some(found) => found,
        None => {
            return None;
        },
    };
    let k = skip_spaces(s, j);
    let op = if looking_at(s, k, "==") {
        CmpOpcode::Eq
    } else if looking_at(s, k, "!=") {
        CmpOpcode::NotEq
    } else {
        return None;
    };
    match parse_word(s, skip_spaces(s, k + 2)) {
        Some((rhs, n)) => Some((Condition::Cmp(id, op, rhs), n)),
        None => None,
    }
}

fn parse_condition(s: &Vec<char>, i: usize) -> (r: Option<(Condition, usize)>)
    requires
        i <= s.len(),
    ensures
        match r {
            Some((c, j)) => condition_at(s@, i as int) == Some((c@, j as int)) && i < j
                <= s.len(),
            None => condition_at(s@, i as int) is None,
        },
{
    if let Some(j) = take_keyword(s, i, "message") {
        match parse_topic(s, j) {
            Some((topic, k)) => Some((Condition::Message(topic), k)),
            None => None,
        }
    } else if let Some(j) = take_keyword(s, i, "is_set") {
        match parse_ident(s, j) {
            Some((id, k)) => Some((Condition::IsSet(id), k)),
            None => None,
        }
    } else {
        parse_comparison(s, i)
    }
}

fn parse_conditions(s: &Vec<char>, i: usize) -> (r: Option<(Vec<Condition>, usize)>)
    requires
        i <= s.len(),
    ensures
        match r {
            Some((cs, j)) => conditions_from(s@, i as int, Seq::empty()) == Some(
                (views(cs@), j as int),
            ) && i < j <= s.len() && cs@.len() >= 1,
            None => conditions_from(s@, i as int, Seq::empty()) is None,
        },
{
    let mut done: Vec<Condition> = Vec::new();
    let mut pos = i;
    assert(views(done@) =~= Seq::<ConditionView>::empty());
    loop
        invariant
            i <= pos <= s.len(),
            conditions_from(s@, i as int, Seq::empty()) == conditions_from(
                s@,
                pos as int,
                views(done@),
            ),
        decreases s.len() - pos,
    {
        let ghost before = views(done@);
        proof {
            reveal_strlit(",");
        }
        match parse_condition(s, pos) {
            None => {
                return None;
            },
            Some((c, j)) => {
                let k = skip_spaces(s, j);
                done.push(c);
                assert(views(done@) =~= before.push(c@));
                if looking_at(s, k, ",") {
                    pos = skip_spaces(s, k + 1);
                } else {
                    return Some((done, k));
                }
            },
        }
    }
}

fn parse_set(s: &Vec<char>, i: usize) -> (r: Option<(Action, usize)>)
    requires
        i <= s.len(),
    ensures
        match r {
            Some((a, j)) => set_at(s@, i as int) == Some((a@, j as int)) && i < j <= s.len(),
            None => set_at(s@, i as int) is None,
        },
{
    proof {
        reveal_strlit(";");
    }
    let (id, j) = match parse_ident(s, i) {
        Some(found) => found,
        None => {
            return None;
        },
    };
    let k = skip_spaces(s, j);
    if k == j {
        return None;
    }
    let (value, n) = match parse_word(s, k) {
        Some(found) => found,
        None => {
            return None;
        },
    };
    let end = skip_spaces(s, n);
    if looking_at(s, end, ";") {
        Some((Action::SetVar(id, value), end + 1))
    } else {
        None
    }
}

fn parse_unset(s: &Vec<char>, i: usize) -> (r: Option<(Action, usize)>)
    requires
        i <= s.len(),
    ensures
        match r {
            Some((a, j)) => unset_at(s@, i as int) == Some((a@, j as int)) && i < j <= s.len(),
            None => unset_at(s@, i as int) is None,
        },
{
    proof {
        reveal_strlit(";");
    }
    let (id, j) = match parse_ident(s, i) {
        Some(found) => found,
        None => {
            return None;
        },
    };
    let end = skip_spaces(s, j);
    if looking_at(s, end, ";") {
        Some((Action::UnsetVar(id), end + 1))
    } else {
        None
    }
}

fn parse_acknowledge(s: &Vec<char>, i: usize) -> (r: Option<(Action, usize)>)
    requires
        i <= s.len(),
    ensures
        match r {
            Some((a, j)) => acknowledge_at(s@, i as int) == Some((a@, j as int)) && i < j
                <= s.len(),
            None => acknowledge_at(s@, i as int) is None,
        },
{
    proof {
        reveal_strlit(";");
    }
    let (topic, j) = match parse_topic(s, i) {
        Some(found) => found,
        None => {
            return None;
        },
    };
    let end = skip_spaces(s, j);
    if looking_at(s, end, ";") {
        Some((Action::Acknowledge(topic), end + 1))
    } else {
        None
    }
}

fn parse_exec(s: &Vec<char>, i: usize) -> (r: Option<(Action, usize)>)
    requires
        i <= s.len(),
    ensures
        match r {
            Some((a, j)) => exec_at(s@, i as int) == Some((a@, j as int)) && i < j <= s.len(),
            None => exec_at(s@, i as int) is None,
        },
{
    proof {
        reveal_strlit(";");
    }
    let j = skip_command(s, i);
    if j > i && looking_at(s, j, ";") {
        Some((Action::Exec(string_from(s, i, j)), j + 1))
    } else {
        None
    }
}

fn parse_script(s: &Vec<char>, i: usize) -> (r: Option<(Action, usize)>)
    requires
        i <= s.len(),
    ensures
        match r {
            Some((a, j)) => script_at(s@, i as int) == Some((a@, j as int)) && i < j <= s.len(),
            None => script_at(s@, i as int) is None,
        },
{
    proof {
        reveal_strlit("#!");
        reveal_strlit("!#");
    }
    if !looking_at(s, i, "#!") {
        return None;
    }
    let j = skip_script(s, i + 2);
    if looking_at(s, j, "!#") {
        Some((Action::Script(string_from(s, i, j)), j + 2))
    } else {
        None
    }
}

fn parse_action(s: &Vec<char>, i: usize) -> (r: Option<(Action, usize)>)
    requires
        i <= s.len(),
    ensures
        match r {
            Some((a, j)) => action_at(s@, i as int) == Some((a@, j as int)) && i < j <= s.len(),
            None => action_at(s@, i as int) is None,
        },
{
    if let Some(j) = take_keyword(s, i, "set") {
        parse_set(s, j)
    } else if let Some(j) = take_keyword(s, i, "unset") {
        parse_unset(s, j)
    } else if let Some(j) = take_keyword(s, i, "acknowledge") {
        parse_acknowledge(s, j)
    } else if let Some(j) = take_keyword(s, i, "exec") {
        parse_exec(s, j)
    } else if let Some(j) = take_keyword(s, i, "script") {
        parse_script(s, j)
    } else {
        None
    }
}

fn parse_actions(s: &Vec<char>, i: usize) -> (r: Option<(Vec<Action>, usize)>)
    requires
        i <= s.len(),
    ensures
        match r {
            Some((acts, j)) => actions_from(s@, i as int, Seq::empty()) == Some(
                (views(acts@), j as int),
            ) && i < j <= s.len() && acts@.len() >= 1,
            None => actions_from(s@, i as int, Seq::empty()) is None,
        },
{
    let mut done: Vec<Action> = Vec::new();
    let mut pos = i;
    assert(views(done@) =~= Seq::<ActionView>::empty());
    loop
        invariant
            i <= pos <= s.len(),
            actions_from(s@, i as int, Seq::empty()) == actions_from(s@, pos as int, views(done@)),
        decreases s.len() - pos,
    {
        let ghost before = views(done@);
        proof {
            reveal_strlit("}");
        }
        match parse_action(s, pos) {
            None => {
                return None;
            },
            Some((a, j)) => {
                let k = skip_spaces(s, j);
                done.push(a);
                assert(views(done@) =~= before.push(a@));
                if looking_at(s, k, "}") {
                    return Some((done, k + 1));
                }
                pos = k;
            },
        }
    }
}

fn parse_match(s: &Vec<char>, i: usize) -> (r: Option<(Match, usize)>)
    requires
        i <= s.len(),
    ensures
        match r {
            Some((m, j)) => match_at(s@, i as int) == Some((m@, j as int)) && i < j <= s.len()
                && m@.conditions.len() >= 1 && m@.actions.len() >= 1,
            None => match_at(s@, i as int) is None,
        },
{
    proof {
        reveal_strlit("when");
        reveal_strlit("(");
        reveal_strlit(")");
        reveal_strlit("{");
    }
    if !looking_at(s, i, "when") {
        return None;
    }
    let open = skip_spaces(s, i + 4);
    if !looking_at(s, open, "(") {
        return None;
    }
    let (conditions, close) = match parse_conditions(s, skip_spaces(s, open + 1)) {
        Some(found) => found,
        None => {
            return None;
        },
    };
    if !looking_at(s, close, ")") {
        return None;
    }
    let brace = skip_spaces(s, close + 1);
    if !looking_at(s, brace, "{") {
        return None;
    }
    match parse_actions(s, skip_spaces(s, brace + 1)) {
        Some((actions, end)) => {
            Some((Match { conditions, actions }, end))
        },
        None => None,
    }
}

/// Every rule of the program has a condition and an action.
pub open spec fn no_empty_rule(matches: Seq<MatchView>) -> bool {
    forall|k: int|
        0 <= k < matches.len() ==> (#[trigger] matches[k]).conditions.len() >= 1
            && matches[k].actions.len() >= 1
}

/// Reads a program. A text that writes no program is refused: among
/// others the empty text, a rule without a condition and a rule without
/// an action.
pub fn glop(src: &str) -> (r: Result<Glop, Error>)
    ensures
        match r {
            Ok(g) => parsed(src@) == Some(g@) && g@.len() >= 1 && no_empty_rule(g@),
            Err(e) => parsed(src@) is None && e@ is Parse,
        },
{
    let s = chars_of(src);
    let mut done: Vec<Match> = Vec::new();
    let mut pos = skip_spaces(&s, 0);
    assert(views(done@) =~= Seq::<MatchView>::empty());
    loop
        invariant
            s@ == src@,
            pos <= s.len(),
            parsed(src@) == matches_from(s@, pos as int, views(done@)),
            no_empty_rule(views(done@)),
        decreases s.len() - pos,
    {
        let ghost before = views(done@);
        match parse_match(&s, pos) {
            None => {
                return Err(Error::Parse("the text is no program".to_owned()));
            },
            Some((m, j)) => {
                let k = skip_spaces(&s, j);
                done.push(m);
                assert(views(done@) =~= before.push(m@));
                if k >= s.len() {
                    return Ok(Glop { matches: done });
                }
                pos = k;
            },
        }
    }
}

} // verus!
