use vstd::prelude::*;

use crate::error::AppError;
use crate::fields::{tag_names, title_segments, MultiSelect, Number, Title};

verus! {

/// A synchronised stage: its numeric id, its title and its tags.
#[derive(Debug, Clone, PartialEq, Eq)]
pub struct Stage {
    pub id: i32,
    pub title: String,
    pub tags: Vec<String>,
}

/// The strings of a vector, as sequences of characters.
pub open spec fn texts(v: Seq<String>) -> Seq<Seq<char>> {
    v.map_values(|s: String| s@)
}

/// A stage as plain values: id, title and tags.
impl View for Stage {
    type V = (i32, Seq<char>, Seq<Seq<char>>);

    open spec fn view(&self) -> (i32, Seq<char>, Seq<Seq<char>>) {
        (self.id, self.title@, texts(self.tags@))
    }
}

/// The stage that three resolved fields describe: the title is the first
/// segment of the title field, later segments are dropped.
pub open spec fn stage_of(id: Number, name: Title, tags: MultiSelect) -> (i32, Seq<char>, Seq<Seq<char>>) {
    (id.number, title_segments(name)[0], tag_names(tags))
}

/// Builds a stage from its three resolved fields. A title field without any
/// segment is not a valid title and is reported as a decoding error.
pub fn make_stage(id: Number, name: Title, tags: MultiSelect) -> (r: Result<Stage, AppError>)
    ensures
        name.results@.len() == 0 <==> r is Err,
        r is Err ==> r->Err_0 is DeserizalizationError,
        r is Ok ==> r->Ok_0@ == stage_of(id, name, tags),
{
    if name.results.len() == 0 {
        return Err(AppError::DeserizalizationError(String::from_str("title field holds no text segment")));
    }
    let title = name.results[0].title.plain_text.clone();
    let mut names: Vec<String> = Vec::new();
    let n = tags.multi_select.len();
    let mut i: usize = 0;
    while i < n
        invariant
            n == tags.multi_select@.len(),
            i <= n,
            texts(names@) =~= tag_names(tags).subrange(0, i as int),
        decreases n - i,
    {
        let ghost before = names@;
        names.push(tags.multi_select[i].name.clone());
        assert(texts(names@) =~= texts(before).push(tags.multi_select@[i as int].name@));
        assert(tag_names(tags).subrange(0, i + 1) =~= tag_names(tags).subrange(0, i as int).push(
            tags.multi_select@[i as int].name@,
        ));
        i = i + 1;
    }
    assert(texts(names@) =~= tag_names(tags));
    Ok(Stage { id: id.number, title, tags: names })
}

/// The outcome of one record from the outcomes of its three field fetches:
/// the first failure among id, title and tags, in that order; else a decoding
/// error for a title without segments; else the stage that they make.
pub open spec fn combined(
    id: Result<Number, AppError>,
    name: Result<Title, AppError>,
    tags: Result<MultiSelect, AppError>,
    r: Result<Stage, AppError>,
) -> bool {
    if id is Err {
        r == Err::<Stage, AppError>(id->Err_0)
    } else if name is Err {
        r == Err::<Stage, AppError>(name->Err_0)
    } else if tags is Err {
        r == Err::<Stage, AppError>(tags->Err_0)
    } else if name->Ok_0.results@.len() == 0 {
        r is Err && r->Err_0 is DeserizalizationError
    } else {
        r is Ok && r->Ok_0@ == stage_of(id->Ok_0, name->Ok_0, tags->Ok_0)
    }
}

/// Combines the outcomes of the three field fetches of one record: the first
/// failure among id, title and tags, in that order, or the stage they make.
pub fn combine_fields(
    id: Result<Number, AppError>,
    name: Result<Title, AppError>,
    tags: Result<MultiSelect, AppError>,
) -> (r: Result<Stage, AppError>)
    ensures
        combined(id, name, tags, r),
{
    match (id, name, tags) {
        (Err(e), _, _) => Err(e),
        (Ok(_), Err(e), _) => Err(e),
        (Ok(_), Ok(_), Err(e)) => Err(e),
        (Ok(i), Ok(n), Ok(t)) => make_stage(i, n, t),
    }
}

/// The stages of the outcomes, in order, when every outcome succeeded.
pub open spec fn successes(outcomes: Seq<Result<Stage, AppError>>) -> Seq<Stage> {
    outcomes.map_values(|o: Result<Stage, AppError>| o->Ok_0)
}

/// Whether every outcome succeeded.
pub open spec fn all_ok(outcomes: Seq<Result<Stage, AppError>>) -> bool {
    forall|i: int| 0 <= i < outcomes.len() ==> (#[trigger] outcomes[i]) is Ok
}

/// Whether `e` is the error of the first failed outcome.
pub open spec fn is_first_error(outcomes: Seq<Result<Stage, AppError>>, e: AppError) -> bool {
    exists|k: int|
        0 <= k < outcomes.len() && outcomes[k] == Err::<Stage, AppError>(e) && all_ok(
            #[trigger] outcomes.subrange(0, k),
        )
}

/// What the aggregation of `outcomes` returns: the stages of all outcomes,
/// in order, when every one succeeded; otherwise the error of the first
/// failed outcome.
pub open spec fn collected(outcomes: Seq<Result<Stage, AppError>>, r: Result<Vec<Stage>, AppError>) -> bool {
    &&& r is Ok <==> all_ok(outcomes)
    &&& r is Ok ==> r->Ok_0@ == successes(outcomes)
    &&& r is Err ==> is_first_error(outcomes, r->Err_0)
}

/// Fail-fast aggregation of the per-record outcomes: the stages in record
/// order when all records resolved, otherwise the first error and no stage.
pub fn collect_stages(outcomes: Vec<Result<Stage, AppError>>) -> (r: Result<Vec<Stage>, AppError>)
    ensures
        collected(outcomes@, r),
{
    let ghost orig = outcomes@;
    let mut rest = outcomes;
    let mut out: Vec<Stage> = Vec::new();
    while rest.len() > 0
        invariant
            orig == outcomes@,
            orig.len() == out@.len() + rest@.len(),
            rest@ == orig.subrange(out@.len() as int, orig.len() as int),
            all_ok(orig.subrange(0, out@.len() as int)),
            out@ == successes(orig.subrange(0, out@.len() as int)),
        decreases rest@.len(),
    {
        let ghost k = out@.len() as int;
        let o = rest.remove(0);
        assert(o == orig[k]);
        match o {
            Ok(s) => {
                out.push(s);
                assert(orig.subrange(0, k + 1) =~= orig.subrange(0, k).push(orig[k]));
                assert(successes(orig.subrange(0, k + 1)) =~= successes(orig.subrange(0, k)).push(s));
                assert(all_ok(orig.subrange(0, k + 1))) by {
                    assert forall|i: int| 0 <= i < k + 1 implies (#[trigger] orig.subrange(0, k + 1)[i]) is Ok by {
                        if i < k {
                            assert(orig.subrange(0, k + 1)[i] == orig.subrange(0, k)[i]);
                        }
                    }
                }
            },
            Err(e) => {
                assert(all_ok(orig.subrange(0, k)));
                assert(is_first_error(orig, e));
                assert(!all_ok(orig)) by {
                    assert(orig[k] is Err);
                }
                return Err(e);
            },
        }
    }
    assert(orig.subrange(0, orig.len() as int) =~= orig);
    Ok(out)
}

/// The three field outcomes of one record: id, title and tags.
pub type FieldOutcomes = (Result<Number, AppError>, Result<Title, AppError>, Result<MultiSelect, AppError>);

/// Whether `outcomes` are the combined outcomes of `records`, one for one.
pub open spec fn combined_all(records: Seq<FieldOutcomes>, outcomes: Seq<Result<Stage, AppError>>) -> bool {
    records.len() == outcomes.len() && forall|i: int|
        0 <= i < records.len() ==> combined(
            records[i].0,
            records[i].1,
            records[i].2,
            #[trigger] outcomes[i],
        )
}

/// Whether the three fields of a record resolved into a stage.
pub open spec fn record_ok(f: FieldOutcomes) -> bool {
    f.0 is Ok && f.1 is Ok && f.2 is Ok && f.1->Ok_0.results@.len() > 0
}

/// Fail-fast: when one record's title fetch fails, whatever the others did,
/// the aggregation of the combined outcomes is an error, with no stage.
pub proof fn lemma_failed_title_fails_all(
    records: Seq<FieldOutcomes>,
    outcomes: Seq<Result<Stage, AppError>>,
    r: Result<Vec<Stage>, AppError>,
    k: int,
)
    requires
        combined_all(records, outcomes),
        collected(outcomes, r),
        0 <= k < records.len(),
        records[k].1 is Err,
    ensures
        r is Err,
{
    assert(combined(records[k].0, records[k].1, records[k].2, outcomes[k]));
    assert(outcomes[k] is Err);
}

/// Order preservation: when every record resolves, the aggregation succeeds
/// and its i-th stage is the stage of the i-th record.
pub proof fn lemma_stage_order(
    records: Seq<FieldOutcomes>,
    outcomes: Seq<Result<Stage, AppError>>,
    r: Result<Vec<Stage>, AppError>,
)
    requires
        combined_all(records, outcomes),
        collected(outcomes, r),
        forall|i: int| 0 <= i < records.len() ==> record_ok(#[trigger] records[i]),
    ensures
        r is Ok,
        r->Ok_0@.len() == records.len(),
        forall|i: int|
            0 <= i < records.len() ==> (#[trigger] r->Ok_0@[i])@ == stage_of(
                records[i].0->Ok_0,
                records[i].1->Ok_0,
                records[i].2->Ok_0,
            ),
{
    assert forall|i: int| 0 <= i < outcomes.len() implies (#[trigger] outcomes[i]) is Ok by {
        assert(record_ok(records[i]));
        assert(combined(records[i].0, records[i].1, records[i].2, outcomes[i]));
    }
    assert forall|i: int| 0 <= i < records.len() implies (#[trigger] r->Ok_0@[i])@ == stage_of(
        records[i].0->Ok_0,
        records[i].1->Ok_0,
        records[i].2->Ok_0,
    ) by {
        assert(record_ok(records[i]));
        assert(combined(records[i].0, records[i].1, records[i].2, outcomes[i]));
        assert(r->Ok_0@[i] == successes(outcomes)[i]);
    }
}

} // verus!
