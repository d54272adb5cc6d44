//! Planning a benchmark run: which targets it uses, how many samples it takes, and
//! which worker and target each sample goes to.
use vstd::prelude::*;

use crate::cli::{kind_label, BenchmarkKind, Config, TargetInput};
use crate::error::AppError;
use crate::target::{
    parse_target_list, pick_target_for_worker, rotation_index, rotation_slot,
    spec_parse_target_list, target_values, Target, TargetValue, split_lines, line_valid,
    targets_of_lines,
};

verus! {

/// The name of the runner for a benchmark kind.
pub fn select_runner_kind(kind: BenchmarkKind) -> (r: &'static str)
    ensures
        r@ == kind_label(kind),
{
    kind.as_str()
}

/// A list of targets taken by value, or the message of the error.
pub open spec fn targets_result_view(r: Result<Vec<Target>, AppError>) -> Result<
    Seq<TargetValue>,
    Seq<char>,
> {
    match r {
        Ok(ts) => Ok(target_values(ts@)),
        Err(AppError::Target(m)) => Err(m@),
        Err(_) => Err(seq![]),
    }
}

/// The targets of a run: the single target, or those of the target list whose text
/// is `list_text`; a list that does not parse gives a target error.
pub fn resolve_targets(input: &TargetInput, list_text: &str) -> (r: Result<Vec<Target>, AppError>)
    ensures
        match input {
            TargetInput::Single(t) => r matches Ok(ts) && target_values(ts@) == seq![t@],
            TargetInput::List(_) => r matches Ok(_) || r matches Err(AppError::Target(_)),
        },
        input is List ==> targets_result_view(r) == spec_parse_target_list(list_text@),
        input is List ==> (r is Ok <==> forall|i: int|
            0 <= i < split_lines(list_text@).len() ==> line_valid(
                #[trigger] split_lines(list_text@)[i],
            )),
        input is List ==> (r matches Ok(ts) ==> target_values(ts@) == targets_of_lines(
            split_lines(list_text@),
        )),
{
    match input {
        TargetInput::Single(target) => {
            let mut v: Vec<Target> = Vec::new();
            v.push(target.duplicate());
            assert(target_values(v@) =~= seq![target@]);
            Ok(v)
        },
        TargetInput::List(_) => match parse_target_list(list_text) {
            Ok(ts) => Ok(ts),
            Err(e) => Err(AppError::Target(e)),
        },
    }
}

pub open spec fn no_targets_message() -> Seq<char> {
    "no targets available"@
}

/// The target for sample `iteration` of worker `worker_index`; refused when there
/// are no targets.
pub fn select_target(targets: &[Target], worker_index: usize, iteration: usize) -> (r: Result<
    Target,
    AppError,
>)
    ensures
        targets@.len() == 0 ==> (r matches Err(AppError::Config(m)) && m@
            == no_targets_message()),
        targets@.len() > 0 ==> (r matches Ok(t) && t@ == targets@[rotation_slot(
            targets@.len(),
            worker_index as nat,
            iteration as nat,
        )]@),
{
    match pick_target_for_worker(targets, worker_index, iteration) {
        Some(t) => Ok(t),
        None => Err(AppError::Config("no targets available".to_owned())),
    }
}

/// One sample of a run: its place in the run, the worker that takes it and the
/// index of its target.
#[derive(Debug, Clone, Copy, PartialEq, Eq)]
pub struct SampleSlot {
    pub iteration: usize,
    pub worker: usize,
    pub target_index: usize,
}

/// The number of workers of a run; at least one.
pub open spec fn worker_count(parallel: nat) -> nat {
    if parallel == 0 {
        1
    } else {
        parallel
    }
}

/// The number of samples of a run: one per worker for throughput, else the workers'
/// share, the measured samples and the warmup, `parallel + number + warmup`.
pub open spec fn sample_total(config: Config) -> nat {
    if config.kind == BenchmarkKind::Throughput {
        worker_count(config.parallel as nat)
    } else {
        (config.parallel + config.number + config.warmup) as nat
    }
}

/// Sample `iteration` is the `iteration / workers`-th sample of worker
/// `iteration % workers`, and that worker takes it on the target that rotation
/// gives for it.
pub open spec fn slot_matches(slot: SampleSlot, iteration: nat, workers: nat, targets: nat) -> bool {
    &&& slot.iteration == iteration
    &&& slot.worker == iteration % workers
    &&& slot.target_index == rotation_slot(targets, slot.worker as nat, iteration / workers)
}

/// Worker `worker`'s `round`-th sample is sample `round * workers + worker` of the
/// run, and it goes to target `(round + worker) % targets`.
pub proof fn lemma_worker_rotation(
    slot: SampleSlot,
    workers: nat,
    targets: nat,
    worker: nat,
    round: nat,
)
    requires
        worker < workers,
        slot_matches(slot, round * workers + worker, workers, targets),
    ensures
        slot.worker == worker,
        slot.target_index == rotation_slot(targets, worker, round),
{
    let iteration = round * workers + worker;
    vstd::arithmetic::div_mod::lemma_fundamental_div_mod_converse(
        iteration as int,
        workers as int,
        round as int,
        worker as int,
    );
}

/// The samples of a run, in order; with no targets, a run of any sample is refused.
pub fn plan_samples(config: &Config, target_count: usize) -> (r: Result<Vec<SampleSlot>, AppError>)
    requires
        config.kind != BenchmarkKind::Throughput ==> config.parallel + config.number
            + config.warmup <= usize::MAX,
    ensures
        sample_total(*config) > 0 && target_count == 0 <==> r is Err,
        r matches Err(e) ==> e matches AppError::Config(m) && m@ == no_targets_message(),
        r matches Ok(slots) ==> {
            &&& slots@.len() == sample_total(*config)
            &&& forall|i: int|
                0 <= i < slots@.len() ==> #[trigger] slot_matches(
                    slots@[i],
                    i as nat,
                    worker_count(config.parallel as nat),
                    target_count as nat,
                )
            &&& forall|i: int| 0 <= i < slots@.len() ==> #[trigger] slots@[i].target_index
                < target_count
        },
{
    let workers: usize = if config.parallel == 0 {
        1
    } else {
        config.parallel
    };
    let total: usize = if config.kind == BenchmarkKind::Throughput {
        workers
    } else {
        config.parallel + config.number + config.warmup
    };
    if total == 0 {
        return Ok(Vec::new());
    }
    if target_count == 0 {
        return Err(AppError::Config("no targets available".to_owned()));
    }
    let mut slots: Vec<SampleSlot> = Vec::new();
    let mut i: usize = 0;
    while i < total
        invariant
            i <= total,
            workers == worker_count(config.parallel as nat),
            total == sample_total(*config),
            target_count > 0,
            slots@.len() == i,
            forall|j: int|
                0 <= j < i ==> #[trigger] slot_matches(
                    slots@[j],
                    j as nat,
                    workers as nat,
                    target_count as nat,
                ),
            forall|j: int| 0 <= j < i ==> #[trigger] slots@[j].target_index < target_count,
        decreases total - i,
    {
        let worker = i % workers;
        let round = i / workers;
        let target_index = rotation_index(target_count, worker, round);
        slots.push(SampleSlot { iteration: i, worker, target_index });
        i = i + 1;
    }
    Ok(slots)
}

} // verus!
