use vstd::prelude::*;

use crate::digest::{is_hex_digit, is_lower_hex};
use crate::worker::SearchOutcome;

verus! {

/// One `(digest, word)` pair of a digest index.
#[derive(Debug, PartialEq, Eq)]
pub struct IndexRecord {
    pub digest: String,
    pub word: String,
}

impl View for IndexRecord {
    type V = (Seq<char>, Seq<char>);

    open spec fn view(&self) -> (Seq<char>, Seq<char>) {
        (self.digest@, self.word@)
    }
}

/// The `(digest, word)` pairs of a sequence of records.
pub open spec fn records_view(rs: Seq<IndexRecord>) -> Seq<(Seq<char>, Seq<char>)> {
    rs.map_values(|r: IndexRecord| r@)
}

/// Each outcome's local index, in worker order.
pub open spec fn outcome_records(outs: Seq<SearchOutcome>) -> Seq<Seq<(Seq<char>, Seq<char>)>> {
    outs.map_values(|o: SearchOutcome| records_view(o.local_index@))
}

/// The word of the first record whose digest is `target`, if any.
pub open spec fn lookup_spec(rs: Seq<(Seq<char>, Seq<char>)>, target: Seq<char>) -> Option<Seq<char>>
    decreases rs.len(),
{
    if rs.len() == 0 {
        None
    } else if rs[0].0 == target {
        Some(rs[0].1)
    } else {
        lookup_spec(rs.skip(1), target)
    }
}

/// Position of the first `':'` of `s`, or its length if it holds none.
pub open spec fn first_colon(s: Seq<char>) -> nat
    decreases s.len(),
{
    if s.len() == 0 || s[0] == ':' {
        0
    } else {
        1 + first_colon(s.skip(1))
    }
}

/// `s` without its first character when that is a space.
pub open spec fn drop_space(s: Seq<char>) -> Seq<char> {
    if s.len() > 0 && s[0] == ' ' {
        s.skip(1)
    } else {
        s
    }
}

/// The line `"<digest>: <word>"` of one record.
pub open spec fn record_line(r: (Seq<char>, Seq<char>)) -> Seq<char> {
    r.0 + seq![':', ' '] + r.1
}

/// The record a line holds: the text before its first `':'` is the digest,
/// the text after it, less one leading space, the word. A line without
/// `':'` holds none.
pub open spec fn parse_line(line: Seq<char>) -> Option<(Seq<char>, Seq<char>)> {
    let p = first_colon(line);
    if p < line.len() {
        Some((line.take(p as int), drop_space(line.skip(p + 1int))))
    } else {
        None
    }
}

/// The records of the lines that hold one, in order.
pub open spec fn parse_lines(lines: Seq<Seq<char>>) -> Seq<(Seq<char>, Seq<char>)>
    decreases lines.len(),
{
    if lines.len() == 0 {
        Seq::empty()
    } else {
        let prev = parse_lines(lines.drop_last());
        match parse_line(lines.last()) {
            Some(r) => prev.push(r),
            None => prev,
        }
    }
}

pub open spec fn opt_record_view(r: Option<IndexRecord>) -> Option<(Seq<char>, Seq<char>)> {
    match r {
        Some(x) => Some(x@),
        None => None,
    }
}

proof fn lemma_first_colon(s: Seq<char>, i: int)
    requires
        0 <= i <= s.len(),
        forall|q: int| 0 <= q < i ==> s[q] != ':',
        i == s.len() || s[i] == ':',
    ensures
        first_colon(s) == i,
    decreases i,
{
    if i > 0 {
        assert(s[0] != ':');
        let t = s.skip(1);
        assert forall|q: int| 0 <= q < i - 1 implies t[q] != ':' by {
            assert(t[q] == s[q + 1]);
        }
        if i < s.len() {
            assert(t[i - 1] == s[i]);
        }
        lemma_first_colon(t, i - 1);
    }
}

fn clone_record(r: &IndexRecord) -> (c: IndexRecord)
    ensures
        c@ == r@,
{
    IndexRecord { digest: r.digest.clone(), word: r.word.clone() }
}

/// Concatenates the workers' local indexes in worker order, each in its own
/// scan order.
pub fn aggregate(outcomes: &Vec<SearchOutcome>) -> (r: Vec<IndexRecord>)
    ensures
        records_view(r@) == outcome_records(outcomes@).flatten(),
{
    let mut r: Vec<IndexRecord> = Vec::new();
    let mut i: usize = 0;
    proof {
        assert(outcome_records(outcomes@).take(0) =~= Seq::<Seq<(Seq<char>, Seq<char>)>>::empty());
        assert(records_view(r@) =~= Seq::<(Seq<char>, Seq<char>)>::empty());
    }
    while i < outcomes.len()
        invariant
            i <= outcomes.len(),
            records_view(r@) == outcome_records(outcomes@).take(i as int).flatten(),
        decreases outcomes.len() - i,
    {
        let local = &outcomes[i].local_index;
        let ghost before = records_view(r@);
        let mut j: usize = 0;
        while j < local.len()
            invariant
                i < outcomes.len(),
                local == outcomes@[i as int].local_index,
                j <= local.len(),
                records_view(r@) == before + records_view(local@).take(j as int),
            decreases local.len() - j,
        {
            let ghost prev = records_view(r@);
            r.push(clone_record(&local[j]));
            proof {
                assert(records_view(r@) =~= prev.push(local@[j as int]@));
                assert(records_view(local@).take(j + 1) =~= records_view(local@).take(j as int).push(
                    local@[j as int]@,
                ));
                assert(before + records_view(local@).take(j + 1) =~= (before + records_view(
                    local@,
                ).take(j as int)).push(local@[j as int]@));
            }
            j = j + 1;
        }
        proof {
            let outs = outcome_records(outcomes@);
            assert(records_view(local@).take(local.len() as int) =~= records_view(local@));
            assert(outs.take(i + 1) =~= outs.take(i as int).push(outs[i as int]));
            outs.take(i as int).lemma_flatten_push(outs[i as int]);
        }
        i = i + 1;
    }
    proof {
        assert(outcome_records(outcomes@).take(outcomes.len() as int) =~= outcome_records(outcomes@));
    }
    r
}

/// The word of the first record whose digest equals `target`, if any.
pub fn lookup(records: &Vec<IndexRecord>, target: &String) -> (r: Option<String>)
    ensures
        crate::worker::opt_view(r) == lookup_spec(records_view(records@), target@),
{
    let ghost rs = records_view(records@);
    let mut i: usize = 0;
    proof {
        assert(rs.skip(0) =~= rs);
    }
    while i < records.len()
        invariant
            rs == records_view(records@),
            i <= records.len(),
            lookup_spec(rs, target@) == lookup_spec(rs.skip(i as int), target@),
        decreases records.len() - i,
    {
        let rec = &records[i];
        proof {
            assert(rs.skip(i as int)[0] == rec@);
            assert(rs.skip(i as int).skip(1) =~= rs.skip(i + 1));
        }
        if rec.digest == *target {
            return Some(rec.word.clone());
        }
        i = i + 1;
    }
    None
}

/// The line `"<digest>: <word>"` of a record.
pub fn format_record(record: &IndexRecord) -> (r: String)
    ensures
        r@ == record_line(record@),
{
    let mut line = record.digest.clone();
    proof {
        reveal_strlit(": ");
    }
    line.append(": ");
    line.append(record.word.as_str());
    proof {
        assert(line@ =~= record_line(record@));
    }
    line
}

/// The lines of an index file, one per record, in order.
pub fn persist_lines(records: &Vec<IndexRecord>) -> (r: Vec<String>)
    ensures
        r.deep_view() == records_view(records@).map_values(|x: (Seq<char>, Seq<char>)| record_line(x)),
{
    let ghost target = records_view(records@).map_values(|x: (Seq<char>, Seq<char>)| record_line(x));
    let mut r: Vec<String> = Vec::new();
    let mut i: usize = 0;
    while i < records.len()
        invariant
            target == records_view(records@).map_values(|x: (Seq<char>, Seq<char>)| record_line(x)),
            i <= records.len(),
            r.deep_view() == target.take(i as int),
        decreases records.len() - i,
    {
        let ghost prev = r.deep_view();
        let line = format_record(&records[i]);
        r.push(line);
        proof {
            assert(r.deep_view() =~= prev.push(target[i as int]));
            assert(target.take(i + 1) =~= target.take(i as int).push(target[i as int]));
        }
        i = i + 1;
    }
    proof {
        assert(target.take(records.len() as int) =~= target);
    }
    r
}

/// Reads one index line: the digest before the first `':'`, the word after
/// it less one leading space. A line without `':'` gives `None`.
pub fn parse_record(line: &str) -> (r: Option<IndexRecord>)
    ensures
        opt_record_view(r) == parse_line(line@),
{
    let n = line.unicode_len();
    let mut i: usize = 0;
    loop
        invariant
            n == line@.len(),
            i <= n,
            forall|q: int| 0 <= q < i ==> line@[q] != ':',
        ensures
            i <= n,
            i == n || line@[i as int] == ':',
            forall|q: int| 0 <= q < i ==> line@[q] != ':',
        decreases n - i,
    {
        if i == n {
            break;
        }
        if line.get_char(i) == ':' {
            break;
        }
        i = i + 1;
    }
    proof {
        lemma_first_colon(line@, i as int);
    }
    if i == n {
        return None;
    }
    let digest = String::from_str(line.substring_char(0, i));
    let start: usize = if i + 1 < n && line.get_char(i + 1) == ' ' {
        i + 2
    } else {
        i + 1
    };
    let word = String::from_str(line.substring_char(start, n));
    proof {
        let rest = line@.skip(i + 1);
        if i + 1 < n && line@[i + 1] == ' ' {
            assert(rest[0] == ' ');
            assert(rest.skip(1) =~= line@.subrange(start as int, n as int));
        } else {
            assert(rest =~= line@.subrange(start as int, n as int));
        }
        assert(digest@ =~= line@.take(i as int));
    }
    Some(IndexRecord { digest, word })
}

/// Reads the records of an index file's lines, skipping lines without `':'`.
pub fn parse_index(lines: &Vec<String>) -> (r: Vec<IndexRecord>)
    ensures
        records_view(r@) == parse_lines(lines.deep_view()),
{
    let ghost ls = lines.deep_view();
    let mut r: Vec<IndexRecord> = Vec::new();
    let mut i: usize = 0;
    proof {
        assert(ls.take(0) =~= Seq::<Seq<char>>::empty());
        assert(records_view(r@) =~= Seq::<(Seq<char>, Seq<char>)>::empty());
    }
    while i < lines.len()
        invariant
            ls == lines.deep_view(),
            i <= lines.len(),
            records_view(r@) == parse_lines(ls.take(i as int)),
        decreases lines.len() - i,
    {
        let ghost prev = records_view(r@);
        let parsed = parse_record(lines[i].as_str());
        proof {
            assert(ls.take(i + 1).drop_last() =~= ls.take(i as int));
            assert(ls.take(i + 1).last() == ls[i as int]);
        }
        match parsed {
            Some(rec) => {
                r.push(rec);
                proof {
                    assert(records_view(r@) =~= prev.push(rec@));
                }
            },
            None => {},
        }
        i = i + 1;
    }
    proof {
        assert(ls.take(lines.len() as int) =~= ls);
    }
    r
}

/// No digest of `rs` holds a `':'`.
pub open spec fn colon_free(rs: Seq<(Seq<char>, Seq<char>)>) -> bool {
    forall|i: int, q: int| 0 <= i < rs.len() && 0 <= q < rs[i].0.len() ==> #[trigger] rs[i].0[q] != ':'
}

/// Every digest of `rs` is lowercase hex.
pub open spec fn hex_digests(rs: Seq<(Seq<char>, Seq<char>)>) -> bool {
    forall|k: int| 0 <= k < rs.len() ==> is_lower_hex(#[trigger] rs[k].0)
}

pub(crate) proof fn lemma_hex_colon_free(rs: Seq<(Seq<char>, Seq<char>)>)
    requires
        hex_digests(rs),
    ensures
        colon_free(rs),
{
    assert forall|i: int, q: int| 0 <= i < rs.len() && 0 <= q < rs[i].0.len() implies #[trigger] rs[i].0[q] != ':' by {
        assert(is_lower_hex(rs[i].0));
        assert(is_hex_digit(rs[i].0[q]));
    }
}

/// Concatenating record runs that hold no `':'` in a digest keeps that so.
pub(crate) proof fn lemma_colon_free_flatten(parts: Seq<Seq<(Seq<char>, Seq<char>)>>)
    requires
        forall|i: int| 0 <= i < parts.len() ==> colon_free(#[trigger] parts[i]),
    ensures
        colon_free(parts.flatten()),
    decreases parts.len(),
{
    if parts.len() > 0 {
        let rest = parts.drop_first();
        assert forall|i: int| 0 <= i < rest.len() implies colon_free(#[trigger] rest[i]) by {
            assert(rest[i] == parts[i + 1]);
        }
        lemma_colon_free_flatten(rest);
        let a = parts[0];
        let b = rest.flatten();
        assert(colon_free(a));
        assert forall|i: int, q: int| 0 <= i < (a + b).len() && 0 <= q < (a + b)[i].0.len() implies #[trigger] (a + b)[i].0[q] != ':' by {
            if i < a.len() {
                assert((a + b)[i] == a[i]);
                assert(a[i].0[q] != ':');
            } else {
                assert((a + b)[i] == b[i - a.len()]);
                assert(b[i - a.len()].0[q] != ':');
            }
        }
    }
}

/// Reading back the lines written for a sequence of records gives the same
/// records, in the same order, provided no digest holds a `':'` (a hex
/// digest never does).
pub proof fn lemma_index_round_trip(rs: Seq<(Seq<char>, Seq<char>)>)
    requires
        colon_free(rs),
    ensures
        parse_lines(rs.map_values(|x: (Seq<char>, Seq<char>)| record_line(x))) == rs,
    decreases rs.len(),
{
    let lines = rs.map_values(|x: (Seq<char>, Seq<char>)| record_line(x));
    if rs.len() > 0 {
        let init = rs.drop_last();
        assert(colon_free(init)) by {
            assert forall|i: int, q: int| 0 <= i < init.len() && 0 <= q < init[i].0.len() implies #[trigger] init[i].0[q] != ':' by {
                assert(init[i] == rs[i]);
                assert(rs[i].0[q] != ':');
            }
        }
        lemma_index_round_trip(init);
        assert(lines.drop_last() =~= init.map_values(|x: (Seq<char>, Seq<char>)| record_line(x)));
        let (d, w) = rs.last();
        let line = lines.last();
        assert(line == d + seq![':', ' '] + w);
        assert forall|q: int| 0 <= q < d.len() implies line[q] != ':' by {
            assert(line[q] == d[q]);
            assert(rs[rs.len() - 1].0[q] != ':');
        }
        assert(line[d.len() as int] == ':');
        lemma_first_colon(line, d.len() as int);
        assert(line.take(d.len() as int) =~= d);
        assert(line.skip(d.len() + 1int)[0] == ' ');
        assert(line.skip(d.len() + 1int).skip(1) =~= w);
        assert(rs =~= init.push(rs.last()));
    } else {
        assert(lines.len() == 0);
        assert(rs =~= Seq::<(Seq<char>, Seq<char>)>::empty());
    }
}

} // verus!
