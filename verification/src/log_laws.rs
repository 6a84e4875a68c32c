//! What the log and the memory report say.
use vstd::prelude::*;
use vstd::string::*;

use crate::logbuf::{asked_for, last_of, pushed, rank, LogEntry};
use crate::memstats::{kib_of, second_number};
use crate::text;
use crate::text::{decimal, lines, upper, words};

verus! {

/// Levels are told in any case, and rank from errors down to what is not a level.
pub proof fn levels_rank_from_errors_down(l: Seq<char>)
    ensures
        upper(l) == "ERROR"@ ==> rank(l) == 4,
        upper(l) == "WARN"@ ==> rank(l) == 3,
        upper(l) == "INFO"@ ==> rank(l) == 2,
        upper(l) == "DEBUG"@ ==> rank(l) == 1,
        upper(l) != "ERROR"@ && upper(l) != "WARN"@ && upper(l) != "INFO"@ && upper(l) != "DEBUG"@ ==> rank(l) == 0,
{
    reveal_strlit("ERROR");
    reveal_strlit("WARN");
    reveal_strlit("INFO");
    reveal_strlit("DEBUG");
    assert("ERROR"@[0] != "WARN"@[0] && "ERROR"@[0] != "INFO"@[0] && "ERROR"@[0] != "DEBUG"@[0]);
    assert("WARN"@[0] != "INFO"@[0] && "WARN"@[0] != "DEBUG"@[0] && "INFO"@[0] != "DEBUG"@[0]);
}

/// What is asked for are the entries behind the cursor that are at least as severe, and of
/// those the last ones; a full log forgets its first entry.
pub proof fn the_last_entries_are_handed_out(entries: Seq<LogEntry>, e: LogEntry, after_id: u64, min: u8, limit: usize)
    ensures
        asked_for(e, after_id, min) <==> e.id > after_id && rank(e.level@) >= min,
        last_of(entries, limit).is_suffix_of(entries),
        last_of(entries, limit).len() == (if entries.len() <= limit {
            entries.len() as int
        } else {
            limit as int
        }),
        pushed(entries, e).last() == e,
        entries.len() < 2000 ==> pushed(entries, e) == entries.push(e),
        entries.len() == 2000 ==> pushed(entries, e).len() == 2000 && forall|i: int|
            0 <= i < 2000 - 1 ==> #[trigger] pushed(entries, e)[i] == entries[i + 1],
{
}

/// A value in a memory report is the number behind the first line that starts with its
/// name.
pub proof fn values_are_read_from_reports(report: Seq<char>, name: Seq<char>, i: int, n: nat)
    requires
        0 <= i < lines(report).len(),
        name.is_prefix_of(lines(report)[i]),
        forall|j: int| 0 <= j < i ==> !name.is_prefix_of(#[trigger] lines(report)[j]),
    ensures
        kib_of(report, name) == second_number(lines(report)[i]),
        words(lines(report)[i]).len() >= 2 && words(lines(report)[i])[1] == decimal(n) && n <= u64::MAX ==> kib_of(
            report,
            name,
        ) == Some(n),
        words(lines(report)[i]).len() < 2 ==> kib_of(report, name) is None,
{
    let f = |l: Seq<char>|
        if name.is_prefix_of(l) {
            Some(second_number(l))
        } else {
            None
        };
    assert forall|j: int| 0 <= j < i implies f(#[trigger] lines(report)[j]) is None by {}
    text::lemma_first_found_at(lines(report), i, f);
    text::numbers_read_back(n, 10);
}

}
