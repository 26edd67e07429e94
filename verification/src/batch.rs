use vstd::prelude::*;

use crate::model::{failed_lookup, failed_state, lookup_of_record, views_of, Lookup, RecordData};

verus! {

/// What one resolution attempt came back with: the resolver's answer records,
/// or a failure (no such name, timeout, server error, and the like).
#[derive(Clone, Debug)]
pub enum Outcome {
    Resolved(Vec<RecordData>),
    Failed,
}

/// The direction of a run: hostnames to addresses, or addresses to hostnames.
#[derive(Clone, Copy, Debug, PartialEq, Eq, Structural)]
pub enum Mode {
    Forward,
    Reverse,
}

/// Which mode the flags select: the host flag chooses forward resolution,
/// anything else resolves addresses back to hostnames.
pub fn select_mode(host_flag: bool) -> (m: Mode)
    ensures
        m == (if host_flag {
            Mode::Forward
        } else {
            Mode::Reverse
        }),
{
    if host_flag {
        Mode::Forward
    } else {
        Mode::Reverse
    }
}

/// Positional arguments win; only when none were given do the lines read
/// from standard input become the subjects.
pub fn choose_subjects(args: Vec<String>, stdin_lines: Vec<String>) -> (r: Vec<String>)
    ensures
        args@.len() > 0 ==> r@ == args@,
        args@.len() == 0 ==> r@ == stdin_lines@,
{
    if args.len() > 0 {
        args
    } else {
        stdin_lines
    }
}

/// Whether every line read from standard input can serve as a subject:
/// a blank line there is a fatal input error, not a subject.
pub fn lines_are_subjects(lines: &Vec<String>) -> (ok: bool)
    ensures
        ok <==> (forall|k: int| 0 <= k < lines@.len() ==> (#[trigger] lines@[k])@.len() > 0),
{
    let mut i: usize = 0;
    while i < lines.len()
        invariant
            i <= lines.len(),
            forall|k: int| 0 <= k < i ==> (#[trigger] lines@[k])@.len() > 0,
        decreases lines.len() - i,
    {
        if lines[i].as_str().is_empty() {
            return false;
        }
        i += 1;
    }
    true
}

/// The entries one subject contributes: one normalized entry per answer
/// record, in the resolver's return order, or the single failed placeholder.
pub open spec fn subject_lookups_spec(subject: Seq<char>, outcome: Outcome) -> Seq<
    crate::model::LookupV,
> {
    match outcome {
        Outcome::Resolved(records) => records@.map_values(|rec: RecordData| lookup_of_record(rec@)),
        Outcome::Failed => seq![failed_lookup(subject)],
    }
}

/// The whole batch: each subject's entries, concatenated in subject order.
pub open spec fn batch_spec(subjects: Seq<String>, outcomes: Seq<Outcome>) -> Seq<
    crate::model::LookupV,
>
    decreases subjects.len(),
{
    if subjects.len() == 0 || outcomes.len() == 0 {
        Seq::empty()
    } else {
        subject_lookups_spec(subjects[0]@, outcomes[0]) + batch_spec(
            subjects.skip(1),
            outcomes.skip(1),
        )
    }
}

/// Map one subject's outcome to its entries.
pub fn subject_lookups(subject: &String, outcome: &Outcome) -> (r: Vec<Lookup>)
    ensures
        views_of(r@) == subject_lookups_spec(subject@, *outcome),
{
    match outcome {
        Outcome::Resolved(records) => {
            let mut out: Vec<Lookup> = Vec::new();
            let mut i: usize = 0;
            while i < records.len()
                invariant
                    i <= records.len(),
                    out@.len() == i,
                    forall|k: int|
                        0 <= k < i ==> (#[trigger] out@[k])@ == lookup_of_record(records@[k]@),
                decreases records.len() - i,
            {
                let entry = Lookup::from(&records[i]);
                out.push(entry);
                i += 1;
            }
            proof {
                assert(views_of(out@) =~= records@.map_values(
                    |rec: RecordData| lookup_of_record(rec@),
                ));
            }
            out
        },
        Outcome::Failed => {
            let mut out: Vec<Lookup> = Vec::new();
            out.push(Lookup::failed(subject.clone()));
            proof {
                assert(views_of(out@) =~= seq![failed_lookup(subject@)]);
            }
            out
        },
    }
}

/// Appending one more subject to a prefix of the batch appends exactly that
/// subject's entries.
pub proof fn lemma_batch_spec_snoc(subjects: Seq<String>, outcomes: Seq<Outcome>, i: int)
    requires
        subjects.len() == outcomes.len(),
        0 <= i < subjects.len(),
    ensures
        batch_spec(subjects.take(i + 1), outcomes.take(i + 1)) == batch_spec(
            subjects.take(i),
            outcomes.take(i),
        ) + subject_lookups_spec(subjects[i]@, outcomes[i]),
    decreases i,
{
    if i == 0 {
        assert(subjects.take(1).skip(1) =~= Seq::<String>::empty());
        assert(outcomes.take(1).skip(1) =~= Seq::<Outcome>::empty());
        assert(batch_spec(subjects.take(0), outcomes.take(0)) =~= Seq::<
            crate::model::LookupV,
        >::empty());
        assert(subjects.take(1).len() == 1);
        assert(subjects.take(1)[0] == subjects[0]);
        assert(outcomes.take(1)[0] == outcomes[0]);
        assert(batch_spec(subjects.take(1), outcomes.take(1)) == subject_lookups_spec(
            subjects[0]@,
            outcomes[0],
        ) + batch_spec(subjects.take(1).skip(1), outcomes.take(1).skip(1)));
        assert(batch_spec(subjects.take(1), outcomes.take(1)) =~= batch_spec(
            subjects.take(0),
            outcomes.take(0),
        ) + subject_lookups_spec(subjects[0]@, outcomes[0]));
    } else {
        lemma_batch_spec_snoc(subjects.skip(1), outcomes.skip(1), i - 1);
        assert(subjects.take(i + 1).skip(1) =~= subjects.skip(1).take(i));
        assert(outcomes.take(i + 1).skip(1) =~= outcomes.skip(1).take(i));
        assert(subjects.take(i).skip(1) =~= subjects.skip(1).take(i - 1));
        assert(outcomes.take(i).skip(1) =~= outcomes.skip(1).take(i - 1));
        assert(subjects.skip(1)[i - 1] == subjects[i]);
        assert(outcomes.skip(1)[i - 1] == outcomes[i]);
        assert(batch_spec(subjects.take(i + 1), outcomes.take(i + 1)) =~= batch_spec(
            subjects.take(i),
            outcomes.take(i),
        ) + subject_lookups_spec(subjects[i]@, outcomes[i]));
    }
}

/// Run the whole batch: every subject's entries, flattened in subject order.
pub fn batch_lookups(subjects: &Vec<String>, outcomes: &Vec<Outcome>) -> (r: Vec<Lookup>)
    requires
        subjects@.len() == outcomes@.len(),
    ensures
        views_of(r@) == batch_spec(subjects@, outcomes@),
{
    let mut out: Vec<Lookup> = Vec::new();
    let mut i: usize = 0;
    while i < subjects.len()
        invariant
            subjects@.len() == outcomes@.len(),
            i <= subjects.len(),
            views_of(out@) == batch_spec(subjects@.take(i as int), outcomes@.take(i as int)),
        decreases subjects@.len() - i,
    {
        let mut part = subject_lookups(&subjects[i], &outcomes[i]);
        proof {
            lemma_batch_spec_snoc(subjects@, outcomes@, i as int);
            assert(views_of(out@ + part@) =~= views_of(out@) + views_of(part@));
        }
        out.append(&mut part);
        i += 1;
    }
    proof {
        assert(subjects@.take(subjects@.len() as int) =~= subjects@);
        assert(outcomes@.take(outcomes@.len() as int) =~= outcomes@);
    }
    out
}

/// Law: every subject yields at least one entry, so a batch yields at least
/// as many entries as it has subjects, provided every successful resolution
/// carried at least one record; the counts are equal when every successful
/// resolution carried exactly one record.
pub proof fn lemma_batch_count(subjects: Seq<String>, outcomes: Seq<Outcome>)
    requires
        subjects.len() == outcomes.len(),
        forall|i: int|
            0 <= i < outcomes.len() ==> ((#[trigger] outcomes[i]) matches Outcome::Resolved(records)
                ==> records@.len() >= 1),
    ensures
        batch_spec(subjects, outcomes).len() >= subjects.len(),
        (forall|i: int|
            0 <= i < outcomes.len() ==> ((#[trigger] outcomes[i]) matches Outcome::Resolved(records)
                ==> records@.len() == 1)) ==> batch_spec(subjects, outcomes).len()
            == subjects.len(),
    decreases subjects.len(),
{
    if subjects.len() > 0 {
        assert(outcomes[0] matches Outcome::Resolved(records) ==> records@.len() >= 1);
        assert(forall|i: int|
            0 <= i < outcomes.skip(1).len() ==> ((#[trigger] outcomes.skip(1)[i])
                matches Outcome::Resolved(records) ==> records@.len() >= 1)) by {
            assert(forall|i: int|
                0 <= i < outcomes.skip(1).len() ==> #[trigger] outcomes.skip(1)[i] == outcomes[i + 1]);
        }
        lemma_batch_count(subjects.skip(1), outcomes.skip(1));
    }
}

/// Law: the batch output is the per-subject outputs concatenated in subject
/// input order, and within one resolved subject the entries keep the
/// resolver's record return order.
pub proof fn lemma_batch_order(subjects: Seq<String>, outcomes: Seq<Outcome>, j: int)
    requires
        subjects.len() == outcomes.len(),
        0 <= j < subjects.len(),
    ensures
        batch_spec(subjects, outcomes) == batch_spec(subjects.take(j), outcomes.take(j))
            + subject_lookups_spec(subjects[j]@, outcomes[j]) + batch_spec(
            subjects.skip(j + 1),
            outcomes.skip(j + 1),
        ),
        outcomes[j] matches Outcome::Resolved(records) ==> forall|k: int|
            0 <= k < records@.len() ==> subject_lookups_spec(subjects[j]@, outcomes[j])[k]
                == lookup_of_record(records@[k]@),
    decreases j,
{
    if j == 0 {
        assert(batch_spec(subjects.take(0), outcomes.take(0)) =~= Seq::<
            crate::model::LookupV,
        >::empty());
        assert(batch_spec(subjects, outcomes) =~= batch_spec(subjects.take(0), outcomes.take(0))
            + subject_lookups_spec(subjects[0]@, outcomes[0]) + batch_spec(
            subjects.skip(1),
            outcomes.skip(1),
        ));
    } else {
        lemma_batch_order(subjects.skip(1), outcomes.skip(1), j - 1);
        assert(subjects.take(j).skip(1) =~= subjects.skip(1).take(j - 1));
        assert(outcomes.take(j).skip(1) =~= outcomes.skip(1).take(j - 1));
        assert(subjects.skip(1).skip(j) =~= subjects.skip(j + 1));
        assert(outcomes.skip(1).skip(j) =~= outcomes.skip(j + 1));
        assert(subjects.skip(1)[j - 1] == subjects[j]);
        assert(outcomes.skip(1)[j - 1] == outcomes[j]);
        assert(batch_spec(subjects, outcomes) =~= batch_spec(subjects.take(j), outcomes.take(j))
            + subject_lookups_spec(subjects[j]@, outcomes[j]) + batch_spec(
            subjects.skip(j + 1),
            outcomes.skip(j + 1),
        ));
    }
}

/// Law: a subject whose resolution failed contributes exactly one entry, the
/// failed placeholder — empty kind, the subject echoed as name and value,
/// state FAILED — standing between its neighbours' outputs.
pub proof fn lemma_failed_placeholder(subjects: Seq<String>, outcomes: Seq<Outcome>, j: int)
    requires
        subjects.len() == outcomes.len(),
        0 <= j < subjects.len(),
        outcomes[j] is Failed,
    ensures
        subject_lookups_spec(subjects[j]@, outcomes[j]) == seq![failed_lookup(subjects[j]@)],
        batch_spec(subjects, outcomes) == batch_spec(subjects.take(j), outcomes.take(j)) + seq![
            failed_lookup(subjects[j]@),
        ] + batch_spec(subjects.skip(j + 1), outcomes.skip(j + 1)),
        failed_lookup(subjects[j]@).kind == Seq::<char>::empty(),
        failed_lookup(subjects[j]@).name == subjects[j]@,
        failed_lookup(subjects[j]@).value == subjects[j]@,
        failed_lookup(subjects[j]@).state == failed_state(),
{
    lemma_batch_order(subjects, outcomes, j);
}

} // verus!
