//! The commands a user types to change the list, as words: which words are
//! accepted, and what each command does to the list.
use crate::date::Date;
use crate::task::TaskState;
use crate::todo_list::{change_state_outcome, delete_outcome, edit_outcome, TodoError, TodoList};
use vstd::prelude::*;

verus! {

/// Whether `c` is a decimal digit.
pub open spec fn is_digit(c: char) -> bool {
    '0' <= c && c <= '9'
}

/// The number written by the decimal digits `s`.
pub open spec fn digits_value(s: Seq<char>) -> nat
    decreases s.len(),
{
    if s.len() == 0 {
        0
    } else {
        digits_value(s.drop_last()) * 10 + (s.last() as nat - '0' as nat) as nat
    }
}

/// The digits of an index word: the word without one leading `+`.
pub open spec fn index_digits(s: Seq<char>) -> Seq<char> {
    if s.len() > 0 && s[0] == '+' {
        s.drop_first()
    } else {
        s
    }
}

/// The index a word names: one or more decimal digits, after at most one
/// `+`, whose value fits in a `usize`.
pub open spec fn index_value(s: Seq<char>) -> Option<usize> {
    let d = index_digits(s);
    if d.len() > 0 && (forall|i: int| 0 <= i < d.len() ==> is_digit(#[trigger] d[i])) && digits_value(d)
        <= usize::MAX {
        Some(digits_value(d) as usize)
    } else {
        None
    }
}

/// A number only grows when digits are written after it.
proof fn lemma_digits_grow(s: Seq<char>, n: int)
    requires
        0 <= n <= s.len(),
        forall|i: int| 0 <= i < s.len() ==> is_digit(#[trigger] s[i]),
    ensures
        digits_value(s.take(n)) <= digits_value(s),
    decreases s.len() - n,
{
    if n == s.len() {
        assert(s.take(n) =~= s);
    } else {
        lemma_digits_grow(s, n + 1);
        let t = s.take(n + 1);
        assert(t.drop_last() =~= s.take(n));
        assert(is_digit(t.last()));
        assert(digits_value(t) == digits_value(s.take(n)) * 10 + (t.last() as nat - '0' as nat) as nat);
    }
}

/// Reads an index word, as `str::parse::<usize>` does.
pub fn parse_index(word: &String) -> (r: Option<usize>)
    ensures
        r == index_value(word@),
{
    let n = word.unicode_len();
    let ghost s = word@;
    let mut start: usize = 0;
    if n > 0 && word.get_char(0) == '+' {
        start = 1;
    }
    let ghost d = index_digits(s);
    assert(d =~= s.subrange(start as int, s.len() as int));
    if start >= n {
        return None;
    }
    let mut value: usize = 0;
    let mut i: usize = start;
    while i < n
        invariant
            start <= i <= n,
            n == s.len(),
            s == word@,
            d == s.subrange(start as int, n as int),
            d == index_digits(s),
            forall|k: int| 0 <= k < i - start ==> is_digit(#[trigger] d[k]),
            value as nat == digits_value(d.take(i - start)),
        decreases n - i,
    {
        let c = word.get_char(i);
        assert(d[i - start] == s[i as int]);
        if c < '0' || c > '9' {
            assert(!is_digit(d[i - start]));
            return None;
        }
        let digit = (c as u32 - '0' as u32) as usize;
        proof {
            assert(d.take(i - start + 1).drop_last() =~= d.take(i - start));
            assert(d.take(i - start + 1).last() == c);
        }
        if value > (usize::MAX - digit) / 10 {
            proof {
                assert(value * 10 + digit > usize::MAX) by (nonlinear_arith)
                    requires
                        value > (usize::MAX - digit) / 10,
                        digit <= 9,
                ;
                if forall|k: int| 0 <= k < d.len() ==> is_digit(#[trigger] d[k]) {
                    lemma_digits_grow(d, i - start + 1);
                    assert(digits_value(d) > usize::MAX);
                }
            }
            return None;
        }
        proof {
            assert(value * 10 + digit <= usize::MAX) by (nonlinear_arith)
                requires
                    value <= (usize::MAX - digit) / 10,
                    digit <= 9,
            ;
        }
        value = value * 10 + digit;
        i = i + 1;
    }
    assert(d.take(d.len() as int) =~= d);
    Some(value)
}

/// What came of a command that changes the list, for the caller to show.
#[derive(Clone, Debug, PartialEq, Eq)]
pub enum Reply {
    /// A `mark` command without exactly three words.
    MarkUsage,
    /// A `delete` command without exactly three words.
    DeleteUsage,
    /// An `edit` command with fewer than four words.
    EditUsage,
    /// The word after `mark` is neither `done` nor `undone`.
    InvalidAction,
    /// The word naming the list is neither `done` nor `undone`.
    InvalidSection,
    /// The index word names no index.
    InvalidIndexWord,
    /// The list refused the operation.
    Failed(TodoError),
    /// A task moved to the other list.
    Marked { index: usize, description: String, new_state: TaskState },
    /// A task was removed.
    Deleted { index: usize, description: String },
    /// A task got a new description.
    Edited { index: usize, old_description: String, new_description: String },
}

/// The list a word names: `done` the finished list, `undone` the unfinished one.
pub open spec fn section_value(w: Seq<char>) -> Option<bool> {
    if w == "done"@ {
        Some(true)
    } else if w == "undone"@ {
        Some(false)
    } else {
        None
    }
}

/// The state a word asks for: `done` or `undone`.
pub open spec fn action_value(w: Seq<char>) -> Option<TaskState> {
    match section_value(w) {
        Some(true) => Some(TaskState::Done),
        Some(false) => Some(TaskState::NotDone),
        None => None,
    }
}

/// The words `ws` with one space between each two.
pub open spec fn joined(ws: Seq<Seq<char>>) -> Seq<char>
    decreases ws.len(),
{
    if ws.len() == 0 {
        Seq::empty()
    } else if ws.len() == 1 {
        ws[0]
    } else {
        joined(ws.drop_last()) + seq![' '] + ws.last()
    }
}

/// The words of `parts` from `from` on, as character sequences.
pub open spec fn words_from(parts: Seq<String>, from: int) -> Seq<Seq<char>> {
    parts.subrange(from, parts.len() as int).map_values(|w: String| w@)
}

/// The reply to a `mark` command that reached the list with result `res`.
pub open spec fn mark_reply(index: usize, new_state: TaskState, res: Result<String, TodoError>) -> Reply {
    match res {
        Ok(description) => Reply::Marked { index: index, description: description, new_state: new_state },
        Err(e) => Reply::Failed(e),
    }
}

/// The reply to a `delete` command that reached the list with result `res`.
pub open spec fn delete_reply(index: usize, res: Result<String, TodoError>) -> Reply {
    match res {
        Ok(description) => Reply::Deleted { index: index, description: description },
        Err(e) => Reply::Failed(e),
    }
}

/// The reply to an `edit` command that reached the list with result `res`.
pub open spec fn edit_reply(index: usize, new_description: String, res: Result<String, TodoError>) -> Reply {
    match res {
        Ok(old_description) => Reply::Edited {
            index: index,
            old_description: old_description,
            new_description: new_description,
        },
        Err(e) => Reply::Failed(e),
    }
}

/// Executable form of `section_value`.
pub fn section_of(word: &String) -> (r: Option<bool>)
    ensures
        r == section_value(word@),
{
    let done = String::from_str("done");
    let undone = String::from_str("undone");
    if word.eq(&done) {
        Some(true)
    } else if word.eq(&undone) {
        Some(false)
    } else {
        None
    }
}

/// The words of `parts` from `from` on, joined by single spaces.
pub fn join_words(parts: &Vec<String>, from: usize) -> (r: String)
    requires
        from <= parts@.len(),
    ensures
        r@ == joined(words_from(parts@, from as int)),
{
    let mut r = String::new();
    let mut i: usize = from;
    proof {
        reveal_strlit(" ");
        assert(words_from(parts@, from as int).take(0) =~= Seq::<Seq<char>>::empty());
    }
    while i < parts.len()
        invariant
            from <= i <= parts@.len(),
            r@ == joined(words_from(parts@, from as int).take(i - from)),
            " "@ == seq![' '],
        decreases parts@.len() - i,
    {
        let ghost ws = words_from(parts@, from as int);
        let ghost r0 = r@;
        if i > from {
            r.append(" ");
        }
        r.append(parts[i].as_str());
        proof {
            let t = ws.take(i - from + 1);
            assert(t.drop_last() =~= ws.take(i - from));
            assert(t.last() == parts@[i as int]@);
            if i > from {
                assert(r@ =~= joined(t.drop_last()) + seq![' '] + t.last());
            } else {
                assert(t.len() == 1);
                assert(r@ =~= t[0]);
            }
        }
        i = i + 1;
    }
    assert(words_from(parts@, from as int).take(i - from) =~= words_from(parts@, from as int));
    r
}

/// `mark done|undone <index>`: moves the task at that index of `date` to
/// the other list. The index word is read before the action word.
pub fn handle_mark_command(todo_list: &mut TodoList, parts: &Vec<String>, date: Date) -> (r: Reply)
    requires
        old(todo_list).wf(),
    ensures
        final(todo_list).wf(),
        parts@.len() != 3 ==> r == Reply::MarkUsage && final(todo_list)@ == old(todo_list)@,
        parts@.len() == 3 && index_value(parts@[2]@).is_none() ==> r == Reply::InvalidIndexWord && final(todo_list)@
            == old(todo_list)@,
        parts@.len() == 3 && index_value(parts@[2]@).is_some() && action_value(parts@[1]@).is_none() ==> r
            == Reply::InvalidAction && final(todo_list)@ == old(todo_list)@,
        parts@.len() == 3 && index_value(parts@[2]@).is_some() && action_value(parts@[1]@).is_some() ==> exists|
            res: Result<String, TodoError>,
        |
            change_state_outcome(
                old(todo_list)@,
                final(todo_list)@,
                date,
                index_value(parts@[2]@).unwrap() as int,
                action_value(parts@[1]@).unwrap(),
                res,
            ) && r == mark_reply(index_value(parts@[2]@).unwrap(), action_value(parts@[1]@).unwrap(), res),
{
    if parts.len() != 3 {
        return Reply::MarkUsage;
    }
    let index = match parse_index(&parts[2]) {
        Some(index) => index,
        None => return Reply::InvalidIndexWord,
    };
    let new_state = match section_of(&parts[1]) {
        Some(true) => TaskState::Done,
        Some(false) => TaskState::NotDone,
        None => return Reply::InvalidAction,
    };
    let res = todo_list.change_task_state(date, index, new_state);
    let ghost g = res;
    let r = match res {
        Ok(description) => Reply::Marked { index, description, new_state },
        Err(e) => Reply::Failed(e),
    };
    assert(new_state == action_value(parts@[1]@).unwrap());
    assert(change_state_outcome(old(todo_list)@, todo_list@, date, index as int, new_state, g) && r == mark_reply(
        index,
        new_state,
        g,
    ));
    r
}

/// `delete done|undone <index>`: removes the task at that index of that list
/// of `date`. The list word is read before the index word.
pub fn handle_delete_command(todo_list: &mut TodoList, parts: &Vec<String>, date: Date) -> (r: Reply)
    requires
        old(todo_list).wf(),
    ensures
        final(todo_list).wf(),
        parts@.len() != 3 ==> r == Reply::DeleteUsage && final(todo_list)@ == old(todo_list)@,
        parts@.len() == 3 && section_value(parts@[1]@).is_none() ==> r == Reply::InvalidSection && final(todo_list)@
            == old(todo_list)@,
        parts@.len() == 3 && section_value(parts@[1]@).is_some() && index_value(parts@[2]@).is_none() ==> r
            == Reply::InvalidIndexWord && final(todo_list)@ == old(todo_list)@,
        parts@.len() == 3 && section_value(parts@[1]@).is_some() && index_value(parts@[2]@).is_some() ==> exists|
            res: Result<String, TodoError>,
        |
            delete_outcome(
                old(todo_list)@,
                final(todo_list)@,
                date,
                index_value(parts@[2]@).unwrap() as int,
                section_value(parts@[1]@).unwrap(),
                res,
            ) && r == delete_reply(index_value(parts@[2]@).unwrap(), res),
{
    if parts.len() != 3 {
        return Reply::DeleteUsage;
    }
    let is_done = match section_of(&parts[1]) {
        Some(is_done) => is_done,
        None => return Reply::InvalidSection,
    };
    let index = match parse_index(&parts[2]) {
        Some(index) => index,
        None => return Reply::InvalidIndexWord,
    };
    let res = todo_list.delete_task(date, index, is_done);
    let ghost g = res;
    let r = match res {
        Ok(description) => Reply::Deleted { index, description },
        Err(e) => Reply::Failed(e),
    };
    assert(delete_outcome(old(todo_list)@, todo_list@, date, index as int, is_done, g) && r == delete_reply(index, g));
    r
}

/// `edit done|undone <index> <words...>`: gives the task at that index of
/// that list of `date` the remaining words, joined by single spaces, as its
/// description. The list word is read before the index word.
pub fn handle_edit_command(todo_list: &mut TodoList, parts: &Vec<String>, date: Date) -> (r: Reply)
    requires
        old(todo_list).wf(),
    ensures
        final(todo_list).wf(),
        parts@.len() < 4 ==> r == Reply::EditUsage && final(todo_list)@ == old(todo_list)@,
        parts@.len() >= 4 && section_value(parts@[1]@).is_none() ==> r == Reply::InvalidSection && final(todo_list)@
            == old(todo_list)@,
        parts@.len() >= 4 && section_value(parts@[1]@).is_some() && index_value(parts@[2]@).is_none() ==> r
            == Reply::InvalidIndexWord && final(todo_list)@ == old(todo_list)@,
        parts@.len() >= 4 && section_value(parts@[1]@).is_some() && index_value(parts@[2]@).is_some() ==> exists|
            res: Result<String, TodoError>,
            nd: String,
        |
            nd@ == joined(words_from(parts@, 3)) && edit_outcome(
                old(todo_list)@,
                final(todo_list)@,
                date,
                index_value(parts@[2]@).unwrap() as int,
                section_value(parts@[1]@).unwrap(),
                nd,
                res,
            ) && r == edit_reply(index_value(parts@[2]@).unwrap(), nd, res),
{
    if parts.len() < 4 {
        return Reply::EditUsage;
    }
    let is_done = match section_of(&parts[1]) {
        Some(is_done) => is_done,
        None => return Reply::InvalidSection,
    };
    let index = match parse_index(&parts[2]) {
        Some(index) => index,
        None => return Reply::InvalidIndexWord,
    };
    let new_description = join_words(parts, 3);
    let res = todo_list.edit_task(date, index, is_done, new_description.clone());
    let ghost g = res;
    let ghost nd = new_description;
    let r = match res {
        Ok(old_description) => Reply::Edited { index, old_description, new_description },
        Err(e) => Reply::Failed(e),
    };
    assert(edit_outcome(old(todo_list)@, todo_list@, date, index as int, is_done, nd, g) && r == edit_reply(
        index,
        nd,
        g,
    ));
    r
}

} // verus!
