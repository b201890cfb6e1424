//! The lines that the pool prints about its workers.

use vstd::prelude::*;
use vstd::string::StringExecFns;

verus! {

/// The decimal digits of `n`, without leading zeros.
pub open spec fn decimal(n: nat) -> Seq<char>
    decreases n,
{
    if n < 10 {
        seq![digit(n)]
    } else {
        decimal(n / 10).push(digit(n % 10))
    }
}

/// The number that these characters stand for, read from the left: every further character counts
/// for its distance from `0`, and what was read before it for ten times as much.
pub open spec fn value(text: Seq<char>) -> int
    decreases text.len(),
{
    if text.len() == 0 {
        0
    } else {
        10 * value(text.drop_last()) + (text.last() as int - '0' as int)
    }
}

/// These characters are a number as people write it: digits, and no zero before others.
pub open spec fn numeral(text: Seq<char>) -> bool {
    &&& text.len() > 0
    &&& forall|i: int| 0 <= i < text.len() ==> '0' <= #[trigger] text[i] <= '9'
    &&& text[0] == '0' ==> text.len() == 1
}

/// What is written of a number reads back as that number.
pub proof fn law_numbers_read_back(n: nat)
    ensures
        numeral(decimal(n)),
        value(decimal(n)) == n,
        decimal(n)[0] == '0' ==> n == 0,
    decreases n,
{
    let text = decimal(n);
    if n < 10 {
        assert(text.drop_last() =~= Seq::empty());
        assert(value(text.drop_last()) == 0);
    } else {
        law_numbers_read_back(n / 10);
        let front = decimal(n / 10);
        assert(text.drop_last() =~= front);
        assert(text[0] == front[0]);
        assert(forall|i: int| 0 <= i < front.len() ==> #[trigger] text[i] == front[i]);
    }
}

/// No two numerals stand for the same number, so there is one way to write it.
pub proof fn law_one_numeral_each(one: Seq<char>, other: Seq<char>)
    requires
        numeral(one),
        numeral(other),
        value(one) == value(other),
    ensures
        one == other,
    decreases one.len(),
{
    lemma_value_bound(one);
    lemma_value_bound(other);
    lemma_value_split(one);
    lemma_value_split(other);
    if one.len() > 1 {
        lemma_value_bound(one.drop_last());
    }
    if other.len() > 1 {
        lemma_value_bound(other.drop_last());
    }
    if one.len() > 1 && other.len() > 1 {
        law_one_numeral_each(one.drop_last(), other.drop_last());
        assert(one =~= one.drop_last().push(one.last()));
        assert(other =~= other.drop_last().push(other.last()));
    } else {
        if one.len() == 1 {
            assert(one.drop_last() =~= Seq::empty());
        }
        if other.len() == 1 {
            assert(other.drop_last() =~= Seq::empty());
        }
        assert(one =~= other);
    }
}

proof fn lemma_value_split(text: Seq<char>)
    requires
        numeral(text),
    ensures
        text.len() > 1 ==> numeral(text.drop_last()),
        '0' <= text.last() <= '9',
{
    assert(text.last() == text[text.len() - 1]);
    if text.len() > 1 {
        let front = text.drop_last();
        assert(front[0] == text[0]);
        assert forall|i: int| 0 <= i < front.len() implies '0' <= #[trigger] front[i] <= '9' by {
            assert(text[i] == front[i]);
        }
    }
}

/// Only the numeral of zero begins with a zero, so a longer numeral stands for ten or more.
proof fn lemma_value_bound(text: Seq<char>)
    requires
        numeral(text),
    ensures
        value(text) >= 0,
        text.len() == 1 ==> value(text) == text[0] as int - '0' as int && value(text) < 10,
        text.len() > 1 ==> value(text) >= 10,
        text[0] != '0' ==> value(text) >= 1,
    decreases text.len(),
{
    lemma_value_split(text);
    if text.len() == 1 {
        assert(text.drop_last() =~= Seq::empty());
        assert(value(text.drop_last()) == 0);
    } else {
        lemma_value_bound(text.drop_last());
        assert(text.drop_last()[0] == text[0]);
    }
}

/// The digit with the value `n`.
pub open spec fn digit(n: nat) -> char {
    ('0' as nat + n) as char
}

/// Writes a digit.
fn digit_text(n: usize) -> (text: &'static str)
    requires
        n < 10,
    ensures
        text@ == seq![digit(n as nat)],
{
    proof {
        reveal_strlit("0");
        reveal_strlit("1");
        reveal_strlit("2");
        reveal_strlit("3");
        reveal_strlit("4");
        reveal_strlit("5");
        reveal_strlit("6");
        reveal_strlit("7");
        reveal_strlit("8");
        reveal_strlit("9");
    }
    let text = match n {
        0 => "0",
        1 => "1",
        2 => "2",
        3 => "3",
        4 => "4",
        5 => "5",
        6 => "6",
        7 => "7",
        8 => "8",
        _ => "9",
    };
    assert(text@ =~= seq![digit(n as nat)]);
    text
}

/// Writes a number in decimal.
fn decimal_text(n: usize) -> (text: String)
    ensures
        text@ == decimal(n as nat),
    decreases n,
{
    if n < 10 {
        digit_text(n).to_owned()
    } else {
        let mut text = decimal_text(n / 10);
        text.append(digit_text(n % 10));
        assert(text@ =~= decimal(n as nat));
        text
    }
}

/// The line on how many jobs a worker has completed.
pub open spec fn completed_text(id: nat, tasks: nat) -> Seq<char> {
    "Worker "@ + decimal(id) + " completed "@ + decimal(tasks) + " tasks"@
}

/// Writes the line on how many jobs a worker has completed.
pub fn completed_line(id: usize, tasks: usize) -> (line: String)
    ensures
        line@ == completed_text(id as nat, tasks as nat),
{
    let mut line = "Worker ".to_owned();
    line.append(decimal_text(id).as_str());
    line.append(" completed ");
    line.append(decimal_text(tasks).as_str());
    line.append(" tasks");
    line
}

/// The line on completed jobs names the worker and the number of jobs, and it is
/// `Worker .. completed .. tasks`.
pub proof fn law_completed_line_tells_worker_and_jobs(id: usize, tasks: usize, line: String)
    requires
        call_ensures(completed_line, (id, tasks), line),
    ensures
        exists|worker: Seq<char>, jobs: Seq<char>|
            {
                &&& line@ == "Worker "@ + worker + " completed "@ + jobs + " tasks"@
                &&& #[trigger] numeral(worker)
                &&& value(worker) == id
                &&& #[trigger] numeral(jobs)
                &&& value(jobs) == tasks
            },
{
    law_numbers_read_back(id as nat);
    law_numbers_read_back(tasks as nat);
}

/// The line on a worker that runs unpinned names this worker.
pub proof fn law_unpinned_line_tells_worker(id: usize, line: String)
    requires
        call_ensures(unpinned_line, (id,), line),
    ensures
        exists|worker: Seq<char>|
            {
                &&& line@ == "Worker "@ + worker + ": affinity unavailable, running unpinned"@
                &&& #[trigger] numeral(worker)
                &&& value(worker) == id
            },
{
    law_numbers_read_back(id as nat);
}

/// The line on a worker that could not be pinned to its core.
pub open spec fn unpinned_text(id: nat) -> Seq<char> {
    "Worker "@ + decimal(id) + ": affinity unavailable, running unpinned"@
}

/// Writes the line on a worker that could not be pinned to its core.
pub fn unpinned_line(id: usize) -> (line: String)
    ensures
        line@ == unpinned_text(id as nat),
{
    let mut line = "Worker ".to_owned();
    line.append(decimal_text(id).as_str());
    line.append(": affinity unavailable, running unpinned");
    line
}

} // verus!
