//! A linear chain of transformers joined by ports, and the scheduler that
//! steps it.

use vstd::prelude::*;
use crate::datablock::DataBlock;
use crate::error::ErrorCode;
use crate::port::Port;
use crate::processor::ProcessorState;
use crate::transform::Transformer;

verus! {

/// Whether `y` can come out when `x` is passed through the first `upto`
/// functions of `transforms`, one after the other.
pub open spec fn derives<F: Fn(DataBlock) -> Result<DataBlock, ErrorCode>>(
    transforms: Seq<F>,
    upto: int,
    x: DataBlock,
    y: DataBlock,
) -> bool
    decreases upto,
{
    if upto <= 0 {
        x == y
    } else {
        exists|m: DataBlock|
            derives(transforms, upto - 1, x, m) && #[trigger] call_ensures(
                transforms[upto - 1],
                (m,),
                Ok::<DataBlock, ErrorCode>(y),
            )
    }
}

/// Stages in a row: stage `i` reads port `i` and writes port `i + 1`. Batches
/// are fed into the first port and polled from the last.
pub struct Pipeline<F> {
    stages: Vec<Transformer<F>>,
    ports: Vec<Port>,
    failed: bool,
    history: Ghost<Seq<Seq<DataBlock>>>,
}

impl<F: Fn(DataBlock) -> Result<DataBlock, ErrorCode>> Pipeline<F> {
    /// Number of stages.
    pub closed spec fn stage_count(&self) -> nat {
        self.stages@.len()
    }

    /// The function that stage `i` applies.
    pub closed spec fn transform(&self, i: int) -> F {
        self.stages@[i].transform()
    }

    /// The functions of the stages, in order.
    pub open spec fn transforms(&self) -> Seq<F> {
        Seq::new(self.stage_count(), |i: int| self.transform(i))
    }

    /// The stage at position `i`.
    pub closed spec fn stage(&self, i: int) -> Transformer<F> {
        self.stages@[i]
    }

    /// The port between stage `i - 1` and stage `i`.
    pub closed spec fn port(&self, i: int) -> Port {
        self.ports@[i]
    }

    /// Every batch that has been placed on port `i` so far, oldest first.
    pub closed spec fn history(&self, i: int) -> Seq<DataBlock> {
        self.history@[i]
    }

    /// Whether a stage has failed.
    pub closed spec fn failed(&self) -> bool {
        self.failed
    }

    /// How many batches have been taken from port `i` so far.
    pub open spec fn taken(&self, i: int) -> int {
        self.history(i).len() - if self.port(i).pending() is Some {
            1int
        } else {
            0int
        }
    }

    /// The batches fed so far, oldest first.
    pub open spec fn fed(&self) -> Seq<DataBlock> {
        self.history(0)
    }

    /// The batches polled from the last port so far, oldest first.
    pub open spec fn delivered(&self) -> Seq<DataBlock> {
        self.history(self.stage_count() as int).take(self.taken(self.stage_count() as int))
    }

    /// The batch that waits on port `i` is the last one placed there.
    pub open spec fn port_ok(&self, i: int) -> bool {
        self.port(i).pending() matches Some(block) ==> self.history(i).len() > 0
            && self.history(i).last() == block
    }

    /// The `k`-th batch placed on the output of stage `i` came out of the
    /// stage's function applied to the `k`-th batch placed on its input.
    pub open spec fn order_kept(&self, i: int) -> bool {
        &&& self.history(i + 1).len() <= self.history(i).len()
        &&& forall|k: int|
            0 <= k < self.history(i + 1).len() ==> call_ensures(
                self.transform(i),
                (#[trigger] self.history(i)[k],),
                Ok::<DataBlock, ErrorCode>(self.history(i + 1)[k]),
            )
        &&& forall|block: DataBlock| call_requires(self.transform(i), (block,))
    }

    /// Stage `i` accounts for every batch it has taken: each is on its output
    /// or in its hands. Its output has ended exactly when it has finished,
    /// which it does only once its input has ended and is drained.
    pub open spec fn stage_ok(&self, i: int) -> bool {
        &&& self.taken(i) == self.history(i + 1).len() + if self.stage(i).held() is Some {
            1int
        } else {
            0int
        }
        &&& self.stage(i).held() matches Some(block) ==> block == self.history(i)[self.taken(i) - 1]
        &&& self.stage(i).is_done() == self.port(i + 1).is_closed()
        &&& self.stage(i).is_done() ==> self.port(i).is_closed() && self.port(i).pending() is None
            && self.stage(i).held() is None
    }

    /// The pipeline is consistent with the record of what passed its ports.
    pub closed spec fn wf(&self) -> bool {
        let n = self.stages@.len() as int;
        &&& self.ports@.len() == n + 1
        &&& self.history@.len() == n + 1
        &&& forall|i: int| 0 <= i <= n ==> #[trigger] self.port_ok(i)
        &&& forall|i: int| 0 <= i < n ==> #[trigger] self.order_kept(i)
        &&& !self.failed ==> forall|i: int| 0 <= i < n ==> #[trigger] self.stage_ok(i)
    }

    /// Nothing has been fed yet and nothing has ended.
    pub closed spec fn fresh(&self) -> bool {
        let n = self.stages@.len() as int;
        &&& !self.failed
        &&& forall|i: int|
            0 <= i <= n ==> (#[trigger] self.history@[i]).len() == 0 && self.ports@[i].pending() is None
                && !self.ports@[i].is_closed()
        &&& forall|i: int|
            0 <= i < n ==> (#[trigger] self.stages@[i]).held() is None && !self.stages@[i].is_done()
    }

    /// A pipeline without stages: what is fed comes out as it is.
    pub fn new() -> (r: Self)
        ensures
            r.wf(),
            r.fresh(),
            r.stage_count() == 0,
    {
        let mut ports: Vec<Port> = Vec::new();
        ports.push(Port::new());
        let r = Pipeline {
            stages: Vec::new(),
            ports,
            failed: false,
            history: Ghost(Seq::<Seq<DataBlock>>::empty().push(Seq::empty())),
        };
        r
    }

    /// Adds a stage that applies `transform` behind the stages there are.
    pub fn add_transform(&mut self, transform: F)
        requires
            old(self).wf(),
            old(self).fresh(),
            forall|block: DataBlock| call_requires(transform, (block,)),
        ensures
            final(self).wf(),
            final(self).fresh(),
            final(self).stage_count() == old(self).stage_count() + 1,
            final(self).transforms() == old(self).transforms().push(transform),
    {
        self.stages.push(Transformer::create(transform));
        self.ports.push(Port::new());
        self.history = Ghost(self.history@.push(Seq::empty()));
        proof {
            let n = self.stages@.len() as int;
            assert forall|i: int| 0 <= i <= n implies #[trigger] self.port_ok(i) by {}
            assert forall|i: int| 0 <= i < n implies #[trigger] self.order_kept(i) by {
                assert(self.history@[i].len() == 0);
                assert(self.history@[i + 1].len() == 0);
                if i < n - 1 {
                    assert(old(self).order_kept(i));
                    assert(self.stages@[i] == old(self).stages@[i]);
                    assert(self.transform(i) == old(self).transform(i));
                } else {
                    assert(self.transform(i) == transform);
                }
            }
            assert forall|i: int| 0 <= i < n implies #[trigger] self.stage_ok(i) by {}
            assert forall|i: int| 0 <= i < n implies #[trigger] self.transforms()[i] == old(
                self,
            ).transforms().push(transform)[i] by {
                if i < n - 1 {
                    assert(self.stages@[i] == old(self).stages@[i]);
                }
            }
            assert(self.transforms() =~= old(self).transforms().push(transform));
        }
    }

    /// Number of stages.
    pub fn num_stages(&self) -> (r: usize)
        ensures
            r == self.stage_count(),
    {
        self.stages.len()
    }
}

impl<F: Fn(DataBlock) -> Result<DataBlock, ErrorCode>> Pipeline<F> {
    /// Stage `i` has failed with `e` on the `k`-th batch that was placed on its input.
    pub open spec fn failed_at(&self, i: int, k: int, e: ErrorCode) -> bool {
        &&& 0 <= i < self.stage_count()
        &&& 0 <= k < self.history(i).len()
        &&& call_ensures(self.transform(i), (self.history(i)[k],), Err::<DataBlock, ErrorCode>(e))
    }

    /// Whether the scheduler has an operation to run on stage `i`: the stage
    /// waits for data and its input holds a batch or has ended, or the stage
    /// holds a batch and its output is free.
    pub open spec fn can_step(&self, i: int) -> bool {
        match self.stage(i).state() {
            ProcessorState::Finished => false,
            ProcessorState::NeedData => self.port(i).pending() is Some || self.port(i).is_closed(),
            ProcessorState::Ready => self.port(i + 1).can_push(),
        }
    }

    /// The operations stage `i` has yet to run before every batch fed so far
    /// has left it and it has finished.
    pub open spec fn stage_work(&self, i: int) -> int {
        2 * (self.fed().len() - self.history(i + 1).len()) - (if self.stage(i).held() is Some {
            1int
        } else {
            0int
        }) + (if self.stage(i).is_done() {
            0int
        } else {
            1int
        })
    }

    /// The operations the first `upto` stages have yet to run.
    pub open spec fn work_upto(&self, upto: int) -> int
        decreases upto,
    {
        if upto <= 0 {
            0
        } else {
            self.work_upto(upto - 1) + self.stage_work(upto - 1)
        }
    }

    /// The operations the stages have yet to run.
    pub open spec fn work_left(&self) -> int {
        self.work_upto(self.stage_count() as int)
    }

    /// No port has seen more batches than were fed.
    pub proof fn lemma_history_bounded(&self, i: int)
        requires
            self.wf(),
            0 <= i <= self.stage_count(),
        ensures
            self.history(i).len() <= self.fed().len(),
        decreases i,
    {
        if i > 0 {
            self.lemma_history_bounded(i - 1);
            assert(self.order_kept(i - 1));
        }
    }

    /// There is never less than no work left.
    pub proof fn lemma_work_not_negative(&self, upto: int)
        requires
            self.wf(),
            !self.failed(),
            0 <= upto <= self.stage_count(),
        ensures
            self.work_upto(upto) >= 0,
        decreases upto,
    {
        if upto > 0 {
            self.lemma_work_not_negative(upto - 1);
            self.lemma_history_bounded(upto - 1);
            assert(self.stage_ok(upto - 1));
        }
    }

    /// When one operation has been run on stage `i` and the other stages
    /// are as they were, there is one operation less to run.
    proof fn lemma_work_after_step(&self, before: &Self, i: int, upto: int)
        requires
            self.stage_count() == before.stage_count(),
            0 <= i < self.stage_count(),
            0 <= upto <= self.stage_count(),
            self.stage_work(i) == before.stage_work(i) - 1,
            forall|j: int|
                0 <= j < self.stage_count() && j != i ==> #[trigger] self.stage_work(j)
                    == before.stage_work(j),
        ensures
            self.work_upto(upto) == before.work_upto(upto) - if i < upto {
                1int
            } else {
                0int
            },
        decreases upto,
    {
        if upto > 0 {
            self.lemma_work_after_step(before, i, upto - 1);
        }
    }

    /// The order that stage `i` kept before is still kept when the stage
    /// applies the same function, its output has seen no further batch and
    /// its input has at most seen further ones.
    proof fn lemma_order_still_kept(&self, before: &Self, i: int)
        requires
            before.order_kept(i),
            self.transform(i) == before.transform(i),
            self.history(i + 1) == before.history(i + 1),
            self.history(i).len() >= before.history(i).len(),
            forall|k: int|
                0 <= k < before.history(i).len() ==> #[trigger] self.history(i)[k]
                    == before.history(i)[k],
        ensures
            self.order_kept(i),
    {
        assert forall|k: int| 0 <= k < self.history(i + 1).len() implies call_ensures(
            self.transform(i),
            (#[trigger] self.history(i)[k],),
            Ok::<DataBlock, ErrorCode>(self.history(i + 1)[k]),
        ) by {
            assert(call_ensures(
                before.transform(i),
                (before.history(i)[k],),
                Ok::<DataBlock, ErrorCode>(before.history(i + 1)[k]),
            ));
        }
    }

    /// When nothing has changed for any stage, there is as much left to run.
    proof fn lemma_work_unchanged(&self, before: &Self, upto: int)
        requires
            self.stage_count() == before.stage_count(),
            0 <= upto <= self.stage_count(),
            forall|j: int|
                0 <= j < self.stage_count() ==> #[trigger] self.stage_work(j) == before.stage_work(
                    j,
                ),
        ensures
            self.work_upto(upto) == before.work_upto(upto),
        decreases upto,
    {
        if upto > 0 {
            self.lemma_work_unchanged(before, upto - 1);
        }
    }

    /// Whether a batch can be fed: the first port is free and has not ended.
    pub fn can_feed(&self) -> (r: bool)
        requires
            self.wf(),
        ensures
            r == self.port(0).can_push(),
    {
        self.ports[0].can_push()
    }

    /// Feeds a batch into the first port.
    pub fn feed(&mut self, block: DataBlock)
        requires
            old(self).wf(),
            !old(self).failed(),
            old(self).port(0).can_push(),
        ensures
            final(self).wf(),
            !final(self).failed(),
            final(self).transforms() == old(self).transforms(),
            final(self).fed() == old(self).fed().push(block),
            final(self).delivered() == old(self).delivered(),
            final(self).stage_count() == old(self).stage_count(),
            final(self).port(0).pending() == Some(block),
            !final(self).port(0).is_closed(),
            forall|i: int|
                0 < i <= old(self).stage_count() ==> #[trigger] final(self).port(i) == old(
                    self,
                ).port(i),
            forall|i: int|
                0 <= i < old(self).stage_count() ==> #[trigger] final(self).stage(i) == old(
                    self,
                ).stage(i),
    {
        let port = &mut self.ports[0];
        port.push(block);
        self.history = Ghost(self.history@.update(0, self.history@[0].push(block)));
        proof {
            let n = self.stages@.len() as int;
            assert forall|i: int| 0 <= i <= n implies #[trigger] self.port_ok(i) by {
                assert(old(self).port_ok(i));
            }
            assert forall|i: int| 0 <= i < n implies #[trigger] self.order_kept(i) by {
                self.lemma_order_still_kept(old(self), i);
            }
            assert forall|i: int| 0 <= i < n implies #[trigger] self.stage_ok(i) by {
                assert(old(self).stage_ok(i));
            }
            assert(self.transforms() =~= old(self).transforms());
            if n > 0 {
                assert(self.delivered() =~= old(self).delivered());
            } else {
                assert(self.delivered() =~= old(self).delivered());
            }
        }
    }

    /// Declares that no more batches will be fed.
    pub fn finish_input(&mut self)
        requires
            old(self).wf(),
            !old(self).failed(),
        ensures
            final(self).wf(),
            !final(self).failed(),
            final(self).port(0).is_closed(),
            final(self).port(0).pending() == old(self).port(0).pending(),
            final(self).transforms() == old(self).transforms(),
            final(self).fed() == old(self).fed(),
            final(self).delivered() == old(self).delivered(),
            final(self).stage_count() == old(self).stage_count(),
            forall|i: int|
                0 < i <= old(self).stage_count() ==> #[trigger] final(self).port(i) == old(
                    self,
                ).port(i),
            forall|i: int|
                0 <= i < old(self).stage_count() ==> #[trigger] final(self).stage(i) == old(
                    self,
                ).stage(i),
    {
        let port = &mut self.ports[0];
        port.finish();
        proof {
            let n = self.stages@.len() as int;
            assert forall|i: int| 0 <= i <= n implies #[trigger] self.port_ok(i) by {
                assert(old(self).port_ok(i));
            }
            assert forall|i: int| 0 <= i < n implies #[trigger] self.order_kept(i) by {
                self.lemma_order_still_kept(old(self), i);
            }
            assert forall|i: int| 0 <= i < n implies #[trigger] self.stage_ok(i) by {
                assert(old(self).stage_ok(i));
            }
            assert(self.transforms() =~= old(self).transforms());
        }
    }

    /// Takes the batch that waits on the last port, if one waits.
    pub fn poll_output(&mut self) -> (r: Option<DataBlock>)
        requires
            old(self).wf(),
        ensures
            final(self).wf(),
            final(self).failed() == old(self).failed(),
            final(self).transforms() == old(self).transforms(),
            final(self).fed() == old(self).fed(),
            r == old(self).port(old(self).stage_count() as int).pending(),
            final(self).delivered() == match r {
                Some(block) => old(self).delivered().push(block),
                None => old(self).delivered(),
            },
            final(self).stage_count() == old(self).stage_count(),
            final(self).port(old(self).stage_count() as int).pending() is None,
            final(self).port(old(self).stage_count() as int).is_closed() == old(self).port(
                old(self).stage_count() as int,
            ).is_closed(),
            forall|i: int|
                0 <= i < old(self).stage_count() ==> #[trigger] final(self).port(i) == old(
                    self,
                ).port(i),
            forall|i: int|
                0 <= i < old(self).stage_count() ==> #[trigger] final(self).stage(i) == old(
                    self,
                ).stage(i),
    {
        let last: usize = self.stages.len();
        let port = &mut self.ports[last];
        let r = port.pull();
        proof {
            let n = self.stages@.len() as int;
            assert(old(self).port_ok(n));
            assert forall|i: int| 0 <= i <= n implies #[trigger] self.port_ok(i) by {
                assert(old(self).port_ok(i));
            }
            assert forall|i: int| 0 <= i < n implies #[trigger] self.order_kept(i) by {
                self.lemma_order_still_kept(old(self), i);
            }
            if !self.failed {
                assert forall|i: int| 0 <= i < n implies #[trigger] self.stage_ok(i) by {
                    assert(old(self).stage_ok(i));
                }
            }
            assert(self.transforms() =~= old(self).transforms());
            if r is Some {
                assert(self.delivered() =~= old(self).delivered().push(r->0));
            } else {
                assert(self.delivered() =~= old(self).delivered());
            }
        }
        r
    }

    /// Whether the last stage has finished and its last batch has been polled.
    pub fn output_finished(&self) -> (r: bool)
        requires
            self.wf(),
        ensures
            r == (self.port(self.stage_count() as int).state() == crate::port::PortState::Finished),
    {
        self.ports[self.stages.len()].is_finished()
    }
}

impl<F: Fn(DataBlock) -> Result<DataBlock, ErrorCode>> Pipeline<F> {
    /// One turn of the scheduler on stage `i`: polls the stage and runs the
    /// operation that belongs to its state, if the ports allow it. Answers
    /// whether an operation was run. The output of a stage is pushed to only
    /// after it has been seen free.
    pub fn step_stage(&mut self, i: usize) -> (r: Result<bool, ErrorCode>)
        requires
            old(self).wf(),
            !old(self).failed(),
            i < old(self).stage_count(),
        ensures
            final(self).wf(),
            final(self).stage_count() == old(self).stage_count(),
            final(self).transforms() == old(self).transforms(),
            final(self).fed() == old(self).fed(),
            final(self).delivered() == old(self).delivered(),
            final(self).failed() == (r is Err),
            final(self).port(0).is_closed() == old(self).port(0).is_closed(),
            match r {
                Ok(stepped) => stepped == old(self).can_step(i as int),
                Err(e) => old(self).can_step(i as int) && call_ensures(
                    old(self).transform(i as int),
                    (old(self).stage(i as int).held()->0,),
                    Err::<DataBlock, ErrorCode>(e),
                ) && final(self).failed_at(i as int, old(self).taken(i as int) - 1, e),
            },
            r == Ok::<bool, ErrorCode>(true) ==> final(self).work_left() == old(self).work_left()
                - 1,
            r == Ok::<bool, ErrorCode>(false) ==> final(self).same_state(old(self)) && final(self).work_left() == old(self).work_left(),
    {
        let ghost n = self.stages@.len() as int;
        let ghost spot = i as int;
        proof {
            assert(old(self).stage_ok(spot));
            assert(old(self).order_kept(spot));
            assert(old(self).port_ok(spot));
            assert(old(self).port_ok(spot + 1));
        }
        let ports: usize = self.ports.len();
        assert(i + 1 < ports);
        let (left, right) = self.ports.as_mut_slice().split_at_mut(i + 1);
        let input = &mut left[i];
        let output = &mut right[0];
        let stage = &mut self.stages[i];
        let mut produced: Ghost<Option<DataBlock>> = Ghost(None);
        assert(stage.transform() == old(self).transform(spot));
        let r = match stage.state() {
            ProcessorState::Finished => Ok(false),
            ProcessorState::NeedData => {
                if input.has_data() || input.is_finished() {
                    stage.pull_input(input, output);
                    Ok(true)
                } else {
                    Ok(false)
                }
            },
            ProcessorState::Ready => {
                if output.can_push() {
                    assert(call_requires(stage.transform(), (stage.held()->0,)));
                    match stage.process(output) {
                        Ok(()) => {
                            proof {
                                produced@ = output.pending();
                                assert(call_ensures(
                                    old(self).transform(spot),
                                    (old(self).stage(spot).held()->0,),
                                    Ok::<DataBlock, ErrorCode>(produced@->0),
                                ));
                            }
                            Ok(true)
                        },
                        Err(e) => Err(e),
                    }
                } else {
                    Ok(false)
                }
            },
        };
        self.history = Ghost(
            match produced@ {
                Some(out) => self.history@.update(spot + 1, self.history@[spot + 1].push(out)),
                None => self.history@,
            },
        );
        if r.is_err() {
            self.failed = true;
        }
        proof {
            assert(self.ports@.len() == n + 1);
            assert forall|j: int| 0 <= j <= n && j != spot && j != spot + 1 implies self.ports@[j]
                == old(self).ports@[j] by {}
            assert forall|j: int| 0 <= j < n && j != spot implies self.stages@[j] == old(
                self,
            ).stages@[j] by {}
            assert forall|j: int| 0 <= j <= n implies #[trigger] self.port_ok(j) by {
                assert(old(self).port_ok(j));
            }
            assert forall|j: int| 0 <= j < n implies #[trigger] self.order_kept(j) by {
                assert(old(self).order_kept(j));
                assert(self.transform(j) == old(self).transform(j));
                assert(forall|block: DataBlock| call_requires(self.transform(j), (block,)));
                if j == spot && produced@ is Some {
                    let out = produced@->0;
                    let held = old(self).stage(spot).held()->0;
                    assert(old(self).taken(spot) == old(self).history(spot + 1).len() + 1);
                    assert(held == old(self).history(spot)[old(self).taken(spot) - 1]);
                    assert(self.history(j) == old(self).history(j));
                    assert(self.history(j + 1) == old(self).history(j + 1).push(out));
                    assert(call_ensures(
                        old(self).transform(spot),
                        (held,),
                        Ok::<DataBlock, ErrorCode>(out),
                    ));
                    assert forall|k: int| 0 <= k < self.history(j + 1).len() implies call_ensures(
                        self.transform(j),
                        (#[trigger] self.history(j)[k],),
                        Ok::<DataBlock, ErrorCode>(self.history(j + 1)[k]),
                    ) by {
                        if k < old(self).history(j + 1).len() {
                            assert(call_ensures(
                                old(self).transform(j),
                                (old(self).history(j)[k],),
                                Ok::<DataBlock, ErrorCode>(old(self).history(j + 1)[k]),
                            ));
                        } else {
                            assert(self.history(j)[k] == held);
                            assert(self.history(j + 1)[k] == out);
                        }
                    }
                } else if j == spot + 1 && produced@ is Some {
                    assert(old(self).stage_ok(j));
                    assert(self.history(j) == old(self).history(j).push(produced@->0));
                    assert(self.history(j + 1) == old(self).history(j + 1));
                    assert forall|k: int| 0 <= k < self.history(j + 1).len() implies call_ensures(
                        self.transform(j),
                        (#[trigger] self.history(j)[k],),
                        Ok::<DataBlock, ErrorCode>(self.history(j + 1)[k]),
                    ) by {
                        assert(call_ensures(
                            old(self).transform(j),
                            (old(self).history(j)[k],),
                            Ok::<DataBlock, ErrorCode>(old(self).history(j + 1)[k]),
                        ));
                    }
                } else {
                    self.lemma_order_still_kept(old(self), j);
                }
            }
            if !self.failed {
                assert forall|j: int| 0 <= j < n implies #[trigger] self.stage_ok(j) by {
                    assert(old(self).stage_ok(j));
                    assert(old(self).port_ok(j));
                    assert(old(self).port_ok(j + 1));
                }
            }
            assert(self.transforms() =~= old(self).transforms());
            assert(self.delivered() =~= old(self).delivered());
            if r == Ok::<bool, ErrorCode>(true) {
                assert forall|j: int| 0 <= j < n && j != spot implies #[trigger] self.stage_work(j)
                    == old(self).stage_work(j) by {}
                self.lemma_work_after_step(old(self), spot, n);
            }
            if r == Ok::<bool, ErrorCode>(false) {
                assert forall|j: int| 0 <= j < n implies #[trigger] self.stage_work(j) == old(
                    self,
                ).stage_work(j) by {}
                self.lemma_work_unchanged(old(self), n);
            }
        }
        r
    }

    /// Whether the ports, the stages and the record are those of `other`.
    pub open spec fn same_state(&self, other: &Self) -> bool {
        &&& self.stage_count() == other.stage_count()
        &&& self.failed() == other.failed()
        &&& forall|j: int|
            0 <= j <= self.stage_count() ==> #[trigger] self.port(j) == other.port(j)
                && self.history(j) == other.history(j)
        &&& forall|j: int|
            0 <= j < self.stage_count() ==> #[trigger] self.stage(j) == other.stage(j)
    }
}

impl<F: Fn(DataBlock) -> Result<DataBlock, ErrorCode>> Pipeline<F> {
    /// No stage has an operation that the scheduler could run.
    pub open spec fn idle(&self) -> bool {
        forall|i: int| 0 <= i < self.stage_count() ==> !#[trigger] self.can_step(i)
    }

    /// Steps the stages, one after the other and again and again, until no
    /// stage has an operation left to run or a stage fails.
    pub fn run(&mut self) -> (r: Result<(), ErrorCode>)
        requires
            old(self).wf(),
            !old(self).failed(),
        ensures
            final(self).wf(),
            final(self).stage_count() == old(self).stage_count(),
            final(self).transforms() == old(self).transforms(),
            final(self).fed() == old(self).fed(),
            final(self).delivered() == old(self).delivered(),
            final(self).port(0).is_closed() == old(self).port(0).is_closed(),
            final(self).failed() == (r is Err),
            r is Ok ==> final(self).idle(),
            r matches Err(e) ==> exists|i: int, k: int| #[trigger] final(self).failed_at(i, k, e),
    {
        let n: usize = self.stages.len();
        loop
            invariant
                self.wf(),
                !self.failed(),
                n == self.stage_count(),
                self.stage_count() == old(self).stage_count(),
                self.transforms() == old(self).transforms(),
                self.fed() == old(self).fed(),
                self.delivered() == old(self).delivered(),
                self.port(0).is_closed() == old(self).port(0).is_closed(),
            decreases self.work_left(),
        {
            let ghost start = *self;
            let mut stepped = false;
            let mut i: usize = 0;
            while i < n
                invariant
                    i <= n,
                    self.wf(),
                    !self.failed(),
                    n == self.stage_count(),
                    self.stage_count() == old(self).stage_count(),
                    self.transforms() == old(self).transforms(),
                    self.fed() == old(self).fed(),
                    self.delivered() == old(self).delivered(),
                    self.port(0).is_closed() == old(self).port(0).is_closed(),
                    stepped ==> self.work_left() < start.work_left(),
                    !stepped ==> self.work_left() == start.work_left(),
                    !stepped ==> forall|j: int| 0 <= j < i ==> !#[trigger] self.can_step(j),
                decreases n - i,
            {
                let ghost before = *self;
                match self.step_stage(i) {
                    Ok(moved) => {
                        proof {
                            if !moved && !stepped {
                                assert forall|j: int| 0 <= j <= i implies !#[trigger] self.can_step(
                                    j,
                                ) by {
                                    assert(!before.can_step(j));
                                    assert(self.stage(j) == before.stage(j));
                                    assert(self.port(j) == before.port(j));
                                    assert(self.port(j + 1) == before.port(j + 1));
                                }
                            }
                        }
                        if moved {
                            stepped = true;
                        }
                    },
                    Err(e) => {
                        return Err(e);
                    },
                }
                i += 1;
            }
            if !stepped {
                return Ok(());
            }
            proof {
                self.lemma_work_not_negative(n as int);
            }
        }
    }

    /// The `k`-th batch that stage `i` has placed on its output came out of
    /// the stage's function applied to the `k`-th batch placed on its input:
    /// a stage never reorders, drops or repeats.
    pub proof fn lemma_stage_keeps_order(&self, i: int, k: int)
        requires
            self.wf(),
            0 <= i < self.stage_count(),
            0 <= k < self.history(i + 1).len(),
        ensures
            k < self.history(i).len(),
            call_ensures(
                self.transform(i),
                (self.history(i)[k],),
                Ok::<DataBlock, ErrorCode>(self.history(i + 1)[k]),
            ),
    {
        assert(self.order_kept(i));
    }

    /// The `k`-th batch placed on port `i` derives from the `k`-th batch fed,
    /// through the stages before the port.
    pub proof fn lemma_history_derives(&self, i: int, k: int)
        requires
            self.wf(),
            0 <= i <= self.stage_count(),
            0 <= k < self.history(i).len(),
        ensures
            k < self.fed().len(),
            derives(self.transforms(), i, self.fed()[k], self.history(i)[k]),
        decreases i,
    {
        if i > 0 {
            self.lemma_stage_keeps_order(i - 1, k);
            self.lemma_history_derives(i - 1, k);
            assert(self.transforms()[i - 1] == self.transform(i - 1));
        }
    }

    /// Batches come out in the order in which they were fed: for every `k`,
    /// the `k`-th batch delivered derives from the `k`-th batch fed, through
    /// all the stages.
    pub proof fn lemma_delivered_in_order(&self, k: int)
        requires
            self.wf(),
            0 <= k < self.delivered().len(),
        ensures
            k < self.fed().len(),
            derives(self.transforms(), self.stage_count() as int, self.fed()[k], self.delivered()[k]),
    {
        assert(self.port_ok(self.stage_count() as int));
        self.lemma_history_derives(self.stage_count() as int, k);
    }
}

impl<F: Fn(DataBlock) -> Result<DataBlock, ErrorCode>> Pipeline<F> {
    /// Nothing waits on a port and no stage holds a batch.
    pub open spec fn drained(&self) -> bool {
        &&& forall|i: int| 0 <= i <= self.stage_count() ==> (#[trigger] self.port(i)).pending() is None
        &&& forall|i: int| 0 <= i < self.stage_count() ==> (#[trigger] self.stage(i)).held() is None
    }

    /// From port `from` on, nothing is left in an idle pipeline whose last
    /// port is free.
    proof fn lemma_idle_drained_from(&self, from: int)
        requires
            self.wf(),
            !self.failed(),
            self.idle(),
            self.port(self.stage_count() as int).pending() is None,
            0 <= from <= self.stage_count(),
        ensures
            forall|i: int| from <= i <= self.stage_count() ==> (#[trigger] self.port(i)).pending() is None,
            forall|i: int| from <= i < self.stage_count() ==> (#[trigger] self.stage(i)).held() is None,
        decreases self.stage_count() - from,
    {
        if from < self.stage_count() {
            self.lemma_idle_drained_from(from + 1);
            assert(self.port(from + 1).pending() is None);
            assert(self.stage_ok(from));
            assert(!self.can_step(from));
        }
    }

    /// No deadlock: when no stage has an operation left to run and the last
    /// port is free, nothing is stuck inside, and every batch that was fed
    /// has been delivered.
    pub proof fn lemma_idle_means_drained(&self)
        requires
            self.wf(),
            !self.failed(),
            self.idle(),
            self.port(self.stage_count() as int).pending() is None,
        ensures
            self.drained(),
            self.delivered().len() == self.fed().len(),
    {
        self.lemma_idle_drained_from(0);
        self.lemma_drained_lengths(self.stage_count() as int);
        assert(self.delivered().len() == self.history(self.stage_count() as int).len());
    }

    /// In a drained pipeline every port has seen as many batches as were fed.
    proof fn lemma_drained_lengths(&self, i: int)
        requires
            self.wf(),
            !self.failed(),
            self.drained(),
            0 <= i <= self.stage_count(),
        ensures
            self.history(i).len() == self.fed().len(),
        decreases i,
    {
        if i > 0 {
            self.lemma_drained_lengths(i - 1);
            assert(self.stage_ok(i - 1));
            assert(self.port(i - 1).pending() is None);
            assert(self.stage(i - 1).held() is None);
        }
    }

    /// The end of the stream travels down an idle, drained pipeline: up to
    /// stage `upto` every stage has finished.
    proof fn lemma_end_reaches(&self, upto: int)
        requires
            self.wf(),
            !self.failed(),
            self.idle(),
            self.drained(),
            self.port(0).is_closed(),
            0 <= upto <= self.stage_count(),
        ensures
            self.port(upto).is_closed(),
        decreases upto,
    {
        if upto > 0 {
            self.lemma_end_reaches(upto - 1);
            assert(self.stage_ok(upto - 1));
            assert(!self.can_step(upto - 1));
            assert(self.port(upto - 1).pending() is None);
            assert(self.stage(upto - 1).held() is None);
        }
    }

    /// Completion: when the input has ended, no stage has an operation left
    /// to run and the last port is free, the output has ended too.
    pub proof fn lemma_idle_means_finished(&self)
        requires
            self.wf(),
            !self.failed(),
            self.idle(),
            self.port(0).is_closed(),
            self.port(self.stage_count() as int).pending() is None,
        ensures
            self.port(self.stage_count() as int).state() == crate::port::PortState::Finished,
    {
        self.lemma_idle_means_drained();
        self.lemma_end_reaches(self.stage_count() as int);
    }

    /// Every port from `from` on has seen at least as many batches as the last.
    proof fn lemma_history_at_least_last(&self, from: int)
        requires
            self.wf(),
            0 <= from <= self.stage_count(),
        ensures
            self.history(from).len() >= self.history(self.stage_count() as int).len(),
        decreases self.stage_count() - from,
    {
        if from < self.stage_count() {
            self.lemma_history_at_least_last(from + 1);
            assert(self.order_kept(from));
        }
    }

    /// When the one batch that is under way waits on the last port, nothing
    /// else is under way.
    proof fn lemma_single_batch_at_exit(&self)
        requires
            self.wf(),
            !self.failed(),
            self.delivered().len() + 1 == self.fed().len(),
            self.port(self.stage_count() as int).pending() is Some,
        ensures
            forall|i: int| 0 <= i < self.stage_count() ==> (#[trigger] self.port(i)).pending() is None,
            forall|i: int| 0 <= i < self.stage_count() ==> (#[trigger] self.stage(i)).held() is None,
    {
        let n = self.stage_count() as int;
        assert(self.port_ok(n));
        assert(self.history(n).len() == self.fed().len());
        assert forall|i: int| 0 <= i < n implies (#[trigger] self.port(i)).pending() is None by {
            self.lemma_history_at_least_last(i + 1);
            self.lemma_history_bounded(i + 1);
            self.lemma_history_bounded(i);
            assert(self.stage_ok(i));
            assert(self.port_ok(i));
        }
        assert forall|i: int| 0 <= i < n implies (#[trigger] self.stage(i)).held() is None by {
            self.lemma_history_at_least_last(i + 1);
            self.lemma_history_bounded(i + 1);
            self.lemma_history_bounded(i);
            assert(self.stage_ok(i));
            assert(self.port_ok(i));
        }
    }

    /// A failure of a stage is the failure of its function on a batch that
    /// derives from a batch that was fed.
    proof fn lemma_failure_derives(&self, e: ErrorCode, inputs: Seq<DataBlock>)
        requires
            self.wf(),
            exists|i: int, k: int| #[trigger] self.failed_at(i, k, e),
            self.fed().len() <= inputs.len(),
            forall|j: int| 0 <= j < self.fed().len() ==> self.fed()[j] == inputs[j],
        ensures
            exists|k: int, i: int, m: DataBlock|
                0 <= k < inputs.len() && 0 <= i < self.stage_count() && #[trigger] derives(
                    self.transforms(),
                    i,
                    inputs[k],
                    m,
                ) && call_ensures(self.transforms()[i], (m,), Err::<DataBlock, ErrorCode>(e)),
    {
        let (i, k) = choose|i: int, k: int| #[trigger] self.failed_at(i, k, e);
        self.lemma_history_derives(i, k);
        let m = self.history(i)[k];
        assert(self.transforms()[i] == self.transform(i));
        assert(derives(self.transforms(), i, inputs[k], m));
    }

    /// Runs a whole stream through a pipeline that has seen nothing yet:
    /// feeds the batches one by one, schedules the stages, gathers what comes
    /// out, and ends the stream. Answers what came out, in order, or the
    /// first failure of a stage.
    pub fn execute(&mut self, inputs: Vec<DataBlock>) -> (r: Result<Vec<DataBlock>, ErrorCode>)
        requires
            old(self).wf(),
            old(self).fresh(),
        ensures
            final(self).wf(),
            final(self).stage_count() == old(self).stage_count(),
            final(self).transforms() == old(self).transforms(),
            final(self).failed() == (r is Err),
            r matches Ok(outputs) ==> {
                &&& final(self).fed() == inputs@
                &&& final(self).delivered() == outputs@
                &&& outputs@.len() == inputs@.len()
                &&& forall|k: int|
                    0 <= k < outputs@.len() ==> derives(
                        final(self).transforms(),
                        final(self).stage_count() as int,
                        inputs@[k],
                        #[trigger] outputs@[k],
                    )
                &&& final(self).port(final(self).stage_count() as int).state()
                    == crate::port::PortState::Finished
            },
            r matches Err(e) ==> exists|k: int, i: int, m: DataBlock|
                0 <= k < inputs@.len() && 0 <= i < old(self).stage_count() && #[trigger] derives(
                    old(self).transforms(),
                    i,
                    inputs@[k],
                    m,
                ) && call_ensures(
                    old(self).transforms()[i],
                    (m,),
                    Err::<DataBlock, ErrorCode>(e),
                ),
    {
        let mut outputs: Vec<DataBlock> = Vec::new();
        let ghost n = self.stage_count() as int;
        proof {
            assert(self.port_ok(n));
            assert(self.history@[n].len() == 0);
            assert(self.history@[0].len() == 0);
            assert(self.delivered() =~= outputs@);
            assert(self.fed() =~= inputs@.take(0));
            assert forall|i: int| 0 <= i <= n implies (#[trigger] self.port(i)).pending() is None by {
                assert(self.history@[i].len() == 0);
            }
            assert forall|i: int| 0 <= i < n implies (#[trigger] self.stage(i)).held() is None by {
                assert(self.stages@[i].held() is None);
            }
        }
        for block in iter: inputs
            invariant
                self.wf(),
                !self.failed(),
                n == self.stage_count(),
                n == old(self).stage_count(),
                self.transforms() == old(self).transforms(),
                iter.seq() == inputs@,
                self.fed() == inputs@.take(iter.index() as int),
                self.delivered() == outputs@,
                outputs@.len() == iter.index(),
                self.drained(),
                !self.port(0).is_closed(),
        {
            assert(self.port(0).pending() is None);
            self.feed(block);
            match self.run() {
                Ok(()) => {},
                Err(e) => {
                    proof {
                        assert(inputs@.take(iter.index() + 1) =~= inputs@.take(
                            iter.index() as int,
                        ).push(block));
                        self.lemma_failure_derives(e, inputs@);
                    }
                    return Err(e);
                },
            }
            proof {
                if self.port(n).pending() is None {
                    self.lemma_idle_means_drained();
                }
                self.lemma_single_batch_at_exit();
            }
            match self.poll_output() {
                Some(out) => {
                    outputs.push(out);
                },
                None => {},
            }
            proof {
                assert(inputs@.take(iter.index() + 1) =~= inputs@.take(iter.index() as int).push(
                    block,
                ));
            }
        }
        assert(inputs@.take(inputs@.len() as int) =~= inputs@);
        self.finish_input();
        match self.run() {
            Ok(()) => {},
            Err(e) => {
                proof {
                    self.lemma_failure_derives(e, inputs@);
                }
                return Err(e);
            },
        }
        proof {
            self.lemma_history_bounded(n);
            assert(self.port_ok(n));
            self.lemma_idle_means_finished();
            assert forall|k: int| 0 <= k < outputs@.len() implies derives(
                self.transforms(),
                self.stage_count() as int,
                inputs@[k],
                #[trigger] outputs@[k],
            ) by {
                self.lemma_delivered_in_order(k);
            }
        }
        Ok(outputs)
    }
}

impl<F: Fn(DataBlock) -> Result<DataBlock, ErrorCode>> Pipeline<F> {
    /// Cancellation: ends every port and has every stage let go of the
    /// batch it holds and finish. Nothing is transformed or placed on a
    /// port any more; what already waits on the last port can still be
    /// polled.
    pub fn cancel(&mut self)
        requires
            old(self).wf(),
        ensures
            final(self).wf(),
            final(self).failed(),
            final(self).stage_count() == old(self).stage_count(),
            final(self).transforms() == old(self).transforms(),
            final(self).fed() == old(self).fed(),
            final(self).delivered() == old(self).delivered(),
            forall|i: int|
                0 <= i <= final(self).stage_count() ==> (#[trigger] final(self).port(i)).is_closed()
                    && final(self).port(i).pending() == old(self).port(i).pending(),
            forall|i: int|
                0 <= i < final(self).stage_count() ==> (#[trigger] final(self).stage(i)).state()
                    == ProcessorState::Finished && final(self).stage(i).held() is None,
    {
        self.failed = true;
        let n: usize = self.stages.len();
        let mut i: usize = 0;
        while i < n
            invariant
                i <= n,
                n == self.stages@.len(),
                self.failed,
                self.ports@ == old(self).ports@,
                self.history@ == old(self).history@,
                self.stages@.len() == old(self).stages@.len(),
                forall|k: int|
                    0 <= k < n ==> (#[trigger] self.stages@[k]).transform() == old(
                        self,
                    ).stages@[k].transform(),
                forall|k: int|
                    0 <= k < i ==> (#[trigger] self.stages@[k]).is_done() && self.stages@[k].held() is None,
            decreases n - i,
        {
            let stage = &mut self.stages[i];
            stage.cancel();
            i += 1;
        }
        let count: usize = self.ports.len();
        let mut p: usize = 0;
        while p < count
            invariant
                p <= count,
                count == self.ports@.len(),
                count == old(self).ports@.len(),
                self.failed,
                self.stages@.len() == old(self).stages@.len(),
                self.history@ == old(self).history@,
                forall|k: int|
                    0 <= k < self.stages@.len() ==> (#[trigger] self.stages@[k]).transform() == old(
                        self,
                    ).stages@[k].transform() && self.stages@[k].is_done() && self.stages@[k].held() is None,
                forall|k: int|
                    0 <= k < count ==> (#[trigger] self.ports@[k]).pending() == old(
                        self,
                    ).ports@[k].pending(),
                forall|k: int| 0 <= k < p ==> (#[trigger] self.ports@[k]).is_closed(),
            decreases count - p,
        {
            let port = &mut self.ports[p];
            port.finish();
            p += 1;
        }
        proof {
            let m = self.stages@.len() as int;
            assert forall|k: int| 0 <= k <= m implies #[trigger] self.port_ok(k) by {
                assert(old(self).port_ok(k));
                assert(self.ports@[k].pending() == old(self).ports@[k].pending());
            }
            assert forall|k: int| 0 <= k < m implies #[trigger] self.order_kept(k) by {
                assert(self.stages@[k].transform() == old(self).stages@[k].transform());
                self.lemma_order_still_kept(old(self), k);
            }
            assert forall|k: int| 0 <= k < m implies self.transforms()[k] == old(
                self,
            ).transforms()[k] by {
                assert(self.stages@[k].transform() == old(self).stages@[k].transform());
            }
            assert(self.transforms() =~= old(self).transforms());
            assert(self.ports@[m].pending() == old(self).ports@[m].pending());
            assert(self.delivered() =~= old(self).delivered());
            assert forall|k: int| 0 <= k <= m implies (#[trigger] self.port(k)).is_closed()
                && self.port(k).pending() == old(self).port(k).pending() by {
                assert(self.ports@[k].is_closed());
            }
            assert forall|k: int| 0 <= k < m implies (#[trigger] self.stage(k)).state()
                == ProcessorState::Finished && self.stage(k).held() is None by {
                assert(self.stages@[k].is_done());
            }
        }
    }
}

} // verus!
