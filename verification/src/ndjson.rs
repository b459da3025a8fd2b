//! The spot log: newline-delimited JSON, one object per line.

use vstd::prelude::*;

verus! {

/// The line that logs one record.
pub fn ndjson_line(json: &str) -> (r: String)
    ensures
        r@ == json@ + seq!['\n'],
{
    let mut r: String = json.to_owned();
    r.push('\n');
    assert(r@ =~= json@ + seq!['\n']);
    r
}

/// The log after the records `records`, in the order in which they came.
pub open spec fn log_text(records: Seq<Seq<char>>) -> Seq<char>
    decreases records.len(),
{
    if records.len() == 0 {
        Seq::empty()
    } else {
        records[0] + seq!['\n'] + log_text(records.drop_first())
    }
}

/// Every record stands on a line of its own: the lines of the log are the
/// records, as long as no record holds a line feed.
pub proof fn law_one_record_per_line(records: Seq<Seq<char>>)
    requires
        forall|i: int| 0 <= i < records.len() ==> !(#[trigger] records[i]).contains('\n'),
    ensures
        crate::text::lines(log_text(records)) == records,
    decreases records.len(),
{
    if records.len() == 0 {
        assert(crate::text::lines(log_text(records)) =~= records);
    } else {
        let first = records[0];
        let rest = records.drop_first();
        law_one_record_per_line(rest);
        crate::text::lemma_lines_append(first, log_text(rest));
        crate::text::lemma_single_line(first);
        assert(records =~= seq![first] + rest);
        let lines = crate::text::lines(log_text(records));
        if first.len() > 0 {
            assert(first.contains(first.last()));
            assert(lines =~= seq![first] + rest);
        } else {
            assert(first =~= Seq::empty());
            assert(lines =~= seq![first] + rest);
        }
    }
}

/// The lines of a log that is cut off in its last record are the records before
/// it and what there is of the last.
pub proof fn law_cut_off_logs_keep_their_lines(records: Seq<Seq<char>>, last: Seq<char>)
    requires
        forall|i: int| 0 <= i < records.len() ==> !(#[trigger] records[i]).contains('\n'),
        !last.contains('\n'),
    ensures
        crate::text::lines(log_text(records) + last) == records + (if last.len() == 0 {
            Seq::empty()
        } else {
            seq![last]
        }),
    decreases records.len(),
{
    crate::text::lemma_single_line(last);
    let end = if last.len() == 0 {
        Seq::empty()
    } else {
        seq![last]
    };
    if records.len() == 0 {
        assert(log_text(records) + last =~= last);
        assert(records + end =~= end);
    } else {
        let first = records[0];
        let rest = records.drop_first();
        law_cut_off_logs_keep_their_lines(rest, last);
        crate::text::lemma_lines_append(first, log_text(rest) + last);
        crate::text::lemma_single_line(first);
        assert(log_text(records) + last =~= first + seq!['\n'] + (log_text(rest) + last));
        assert(records + end =~= seq![first] + (rest + end));
        let lines = crate::text::lines(log_text(records) + last);
        if first.len() > 0 {
            assert(first.contains(first.last()));
            assert(lines =~= seq![first] + (rest + end));
        } else {
            assert(first =~= Seq::empty());
            assert(lines =~= seq![first] + (rest + end));
        }
    }
}

} // verus!
