use vstd::prelude::*;

use async_channel::Receiver;

use crate::block::{
    copy_column, field_index, law_concat_two, spec_concat_blocks, view_column, DataBlock, DataSchema, DataValue,
    ErrorCode, SpecBlock, SpecError, SpecField, SpecValue,
};

verus! {

#[verifier::external_type_specification]
#[verifier::external_body]
#[verifier::reject_recursive_types(T)]
pub struct ExReceiver<T>(Receiver<T>);

/// Takes a block from the channel if one is waiting (`async_channel::Receiver::try_recv`).
///
/// Nothing is claimed of the outcome: whether a block waits, and which, is the channel's state.
#[verifier::external_body]
fn receiver_try_recv(receiver: &Receiver<DataBlock>) -> (r: Option<DataBlock>) {
    match receiver.try_recv() {
        Ok(block) => Some(block),
        Err(_) => None,
    }
}

/// What the pipeline executor is told to do next with a processor.
#[derive(PartialEq, Eq, Structural, Clone, Copy, Debug)]
pub enum Event {
    NeedData,
    NeedConsume,
    Sync,
    Async,
    Finished,
}

/// The state of the processor's ports, as the executor sees it when it asks for an event.
#[derive(PartialEq, Eq, Structural, Clone, Copy, Debug)]
pub struct PortStatus {
    pub output_finished: bool,
    pub output_can_push: bool,
    pub input_finished: bool,
    pub input_has_data: bool,
}

/// What the executor does on the ports along with an event.
#[derive(Debug, PartialEq, Eq)]
pub enum PortAction {
    NoAction,
    FinishInput,
    SetInputNotNeedData,
    PushOutput(DataBlock),
    FinishOutput,
    SetInputNeedData,
}

pub enum SpecAction {
    NoAction,
    FinishInput,
    SetInputNotNeedData,
    PushOutput(SpecBlock),
    FinishOutput,
    SetInputNeedData,
}

impl View for PortAction {
    type V = SpecAction;

    open spec fn view(&self) -> SpecAction {
        match self {
            PortAction::NoAction => SpecAction::NoAction,
            PortAction::FinishInput => SpecAction::FinishInput,
            PortAction::SetInputNotNeedData => SpecAction::SetInputNotNeedData,
            PortAction::PushOutput(b) => SpecAction::PushOutput(b@),
            PortAction::FinishOutput => SpecAction::FinishOutput,
            PortAction::SetInputNeedData => SpecAction::SetInputNeedData,
        }
    }
}

/// The answer to a request for an event: an event with a port action, or the request to pull
/// a block from the input port and hand it over with [`TransformMergeBlock::on_pulled`].
#[derive(Debug, PartialEq, Eq)]
pub enum EventStep {
    Done(Event, PortAction),
    PullInput,
}

pub enum SpecStep {
    Done(Event, SpecAction),
    PullInput,
}

impl View for EventStep {
    type V = SpecStep;

    open spec fn view(&self) -> SpecStep {
        match self {
            EventStep::Done(e, a) => SpecStep::Done(*e, a@),
            EventStep::PullInput => SpecStep::PullInput,
        }
    }
}

/// A processor that projects the blocks of its input port and the blocks that arrive on a
/// channel to one schema, and pushes them to its output port: a block from each side that are
/// processed together are concatenated, the input's rows first.
///
/// Each pair `(left, right)` names the column of a projected block: the column named `left`,
/// else the one named `right`.
pub struct TransformMergeBlock {
    finished: bool,
    input_data: Option<DataBlock>,
    output_data: Option<DataBlock>,
    projection: Projection,
    receiver: Receiver<DataBlock>,
    receiver_result: Option<DataBlock>,
}

/// The output schema and the pairs of column names that project a block to it: one pair per
/// field.
struct Projection {
    schema: DataSchema,
    pairs: Vec<(String, String)>,
}

pub struct SpecMerge {
    /// The channel is known to be closed and empty.
    pub finished: bool,
    pub input_data: Option<SpecBlock>,
    pub output_data: Option<SpecBlock>,
    pub receiver_result: Option<SpecBlock>,
    pub schema: Seq<SpecField>,
    pub pairs: Seq<(Seq<char>, Seq<char>)>,
}

pub open spec fn view_opt_block(o: Option<DataBlock>) -> Option<SpecBlock> {
    match o {
        Some(b) => Some(b@),
        None => None,
    }
}

pub open spec fn view_pairs(p: Seq<(String, String)>) -> Seq<(Seq<char>, Seq<char>)> {
    p.map_values(|x: (String, String)| (x.0@, x.1@))
}

impl View for TransformMergeBlock {
    type V = SpecMerge;

    closed spec fn view(&self) -> SpecMerge {
        SpecMerge {
            finished: self.finished,
            input_data: view_opt_block(self.input_data),
            output_data: view_opt_block(self.output_data),
            receiver_result: view_opt_block(self.receiver_result),
            schema: self.projection.schema@,
            pairs: view_pairs(self.projection.pairs@),
        }
    }
}

// ---------------------------------------------------------------------------
// The decisions, as functions of the state
// ---------------------------------------------------------------------------
/// Whether the event asks the channel for a block: the output takes data, no block waits to be
/// pushed, and none waits to be processed.
pub open spec fn polls_channel(s: SpecMerge, ports: PortStatus) -> bool {
    &&& !ports.output_finished
    &&& ports.output_can_push
    &&& s.output_data is None
    &&& s.input_data is None
    &&& s.receiver_result is None
}

/// The next state and step, where `received` is what the channel gives when it is asked.
pub open spec fn spec_event(s: SpecMerge, ports: PortStatus, received: Option<SpecBlock>) -> (
    SpecMerge,
    SpecStep,
) {
    if ports.output_finished {
        (s, SpecStep::Done(Event::Finished, SpecAction::FinishInput))
    } else if !ports.output_can_push {
        (s, SpecStep::Done(Event::NeedConsume, SpecAction::SetInputNotNeedData))
    } else if s.output_data is Some {
        (
            SpecMerge { output_data: None, ..s },
            SpecStep::Done(Event::NeedConsume, SpecAction::PushOutput(s.output_data->0)),
        )
    } else if s.input_data is Some || s.receiver_result is Some {
        (s, SpecStep::Done(Event::Sync, SpecAction::NoAction))
    } else if received is Some {
        (
            SpecMerge { receiver_result: received, ..s },
            SpecStep::Done(Event::Sync, SpecAction::NoAction),
        )
    } else if ports.input_finished {
        if !s.finished {
            (s, SpecStep::Done(Event::Async, SpecAction::NoAction))
        } else {
            (s, SpecStep::Done(Event::Finished, SpecAction::FinishOutput))
        }
    } else if ports.input_has_data {
        (s, SpecStep::PullInput)
    } else {
        (s, SpecStep::Done(Event::NeedData, SpecAction::SetInputNeedData))
    }
}

/// The column that the pair `p` picks from block `b`: the one named `p.0`, else the one
/// named `p.1`.
pub open spec fn pick_column(b: SpecBlock, p: (Seq<char>, Seq<char>)) -> Option<Seq<SpecValue>> {
    match field_index(b.schema, p.0) {
        Some(i) => Some(b.columns[i]),
        None => match field_index(b.schema, p.1) {
            Some(i) => Some(b.columns[i]),
            None => None,
        },
    }
}

/// The columns that `pairs` pick from `b`, or the error of the first pair that picks none.
pub open spec fn spec_project_columns(b: SpecBlock, pairs: Seq<(Seq<char>, Seq<char>)>) -> Result<
    Seq<Seq<SpecValue>>,
    SpecError,
>
    decreases pairs.len(),
{
    if pairs.len() == 0 {
        Ok(Seq::empty())
    } else {
        match spec_project_columns(b, pairs.drop_last()) {
            Ok(cols) => match pick_column(b, pairs.last()) {
                Some(c) => Ok(cols.push(c)),
                None => Err(SpecError::BadArguments(pairs.last().1)),
            },
            Err(e) => Err(e),
        }
    }
}

/// The projection of `b` to `schema` by `pairs`.
pub open spec fn spec_project(
    b: SpecBlock,
    schema: Seq<SpecField>,
    pairs: Seq<(Seq<char>, Seq<char>)>,
) -> Result<SpecBlock, SpecError> {
    match spec_project_columns(b, pairs) {
        Ok(columns) => Ok(SpecBlock { schema, columns }),
        Err(e) => Err(e),
    }
}

/// What projecting the waiting blocks gives: the state after and the result.
pub open spec fn spec_process(s: SpecMerge) -> (SpecMerge, Result<(), SpecError>) {
    let project = |b: SpecBlock| spec_project(b, s.schema, s.pairs);
    match (s.input_data, s.receiver_result) {
        (Some(a), Some(b)) => {
            let s1 = SpecMerge { input_data: None, receiver_result: None, ..s };
            match project(a) {
                Err(e) => (s1, Err(e)),
                Ok(pa) => match project(b) {
                    Err(e) => (s1, Err(e)),
                    Ok(pb) => match spec_concat_blocks(seq![pa, pb]) {
                        Err(e) => (s1, Err(e)),
                        Ok(c) => (SpecMerge { output_data: Some(c), ..s1 }, Ok(())),
                    },
                },
            }
        },
        (Some(a), None) => {
            let s1 = SpecMerge { input_data: None, ..s };
            match project(a) {
                Err(e) => (s1, Err(e)),
                Ok(pa) => (SpecMerge { output_data: Some(pa), ..s1 }, Ok(())),
            }
        },
        (None, Some(b)) => {
            let s1 = SpecMerge { receiver_result: None, ..s };
            match project(b) {
                Err(e) => (s1, Err(e)),
                Ok(pb) => (SpecMerge { output_data: Some(pb), ..s1 }, Ok(())),
            }
        },
        (None, None) => (s, Ok(())),
    }
}

/// The state after the channel was awaited and gave `received` (nothing: it is closed).
pub open spec fn spec_on_received(s: SpecMerge, received: Option<SpecBlock>) -> SpecMerge {
    if s.finished {
        s
    } else if received is Some {
        SpecMerge { receiver_result: received, ..s }
    } else {
        SpecMerge { finished: true, ..s }
    }
}

proof fn lemma_project_prefix_err(b: SpecBlock, pairs: Seq<(Seq<char>, Seq<char>)>, m: int)
    requires
        0 <= m <= pairs.len(),
        spec_project_columns(b, pairs.take(m)) is Err,
    ensures
        spec_project_columns(b, pairs) == spec_project_columns(b, pairs.take(m)),
    decreases pairs.len(),
{
    if m == pairs.len() {
        assert(pairs.take(m) =~= pairs);
    } else {
        assert(pairs.drop_last().take(m) =~= pairs.take(m));
        lemma_project_prefix_err(b, pairs.drop_last(), m);
    }
}

// ---------------------------------------------------------------------------
// The processor
// ---------------------------------------------------------------------------
impl Projection {
    #[verifier::type_invariant]
    spec fn one_pair_per_field(&self) -> bool {
        self.pairs@.len() == self.schema.fields@.len()
    }

    fn project_block(&self, block: &DataBlock) -> (r: Result<DataBlock, ErrorCode>)
        ensures
            match (r, spec_project(block@, self.schema@, view_pairs(self.pairs@))) {
                (Ok(b), Ok(s)) => b@ == s,
                (Err(e), Err(s)) => e@ == s,
                _ => false,
            },
    {
        proof {
            use_type_invariant(self);
        }
        let ghost pairs = view_pairs(self.pairs@);
        let mut columns: Vec<Vec<DataValue>> = Vec::new();
        let n = self.pairs.len();
        assert(pairs.take(0) =~= Seq::<(Seq<char>, Seq<char>)>::empty());
        assert(columns@.map_values(|c: Vec<DataValue>| view_column(c)) =~= Seq::<
            Seq<SpecValue>,
        >::empty());
        for i in 0..n
            invariant
                n == self.pairs@.len(),
                n == self.schema.fields@.len(),
                columns@.len() == i,
                pairs == view_pairs(self.pairs@),
                spec_project_columns(block@, pairs.take(i as int)) == Ok::<
                    Seq<Seq<SpecValue>>,
                    SpecError,
                >(columns@.map_values(|c: Vec<DataValue>| view_column(c))),
        {
            assert(pairs.take(i + 1).drop_last() =~= pairs.take(i as int));
            assert(pairs.take(i + 1).last() == pairs[i as int]);
            let pair = &self.pairs[i];
            let col = match block.try_column_by_name(&pair.0) {
                Ok(c) => c,
                Err(_) => match block.try_column_by_name(&pair.1) {
                    Ok(c) => c,
                    Err(e) => {
                        proof {
                            lemma_project_prefix_err(block@, pairs, i + 1);
                        }
                        return Err(e);
                    },
                },
            };
            let ghost prev = columns@;
            columns.push(copy_column(col));
            assert(columns@.map_values(|c: Vec<DataValue>| view_column(c)) =~= prev.map_values(
                |c: Vec<DataValue>| view_column(c),
            ).push(view_column(*col)));
        }
        assert(pairs.take(n as int) =~= pairs);
        Ok(DataBlock::create(self.schema.copy(), columns))
    }
}

impl TransformMergeBlock {
    /// A processor that projects to `schema` by `pairs` and receives blocks on `receiver`; the
    /// pairs name the columns of the schema's fields, one pair per field.
    pub fn try_create(
        schema: DataSchema,
        pairs: Vec<(String, String)>,
        receiver: Receiver<DataBlock>,
    ) -> (r: Result<TransformMergeBlock, ErrorCode>)
        requires
            pairs@.len() == schema.fields@.len(),
        ensures
            r matches Ok(p) && p@ == (SpecMerge {
                finished: false,
                input_data: None,
                output_data: None,
                receiver_result: None,
                schema: schema@,
                pairs: view_pairs(pairs@),
            }),
    {
        Ok(
            TransformMergeBlock {
                finished: false,
                input_data: None,
                output_data: None,
                projection: Projection { schema, pairs },
                receiver,
                receiver_result: None,
            },
        )
    }

    /// The processor's name.
    pub fn name(&self) -> (s: String)
        ensures
            s@ == "TransformMergeBlock"@,
    {
        "TransformMergeBlock".to_owned()
    }

    /// Whether the channel is known to be closed and empty.
    pub fn is_finished(&self) -> (b: bool)
        ensures
            b == self@.finished,
    {
        self.finished
    }

    /// The channel the processor receives blocks on.
    pub fn receiver(&self) -> &Receiver<DataBlock> {
        &self.receiver
    }

    /// The projection of `block` to the processor's schema: column `k` is the column of `block`
    /// named by `pairs[k].0`, else the one named by `pairs[k].1`; an error for the first pair
    /// that names no column of `block`.
    pub fn project_block(&self, block: &DataBlock) -> (r: Result<DataBlock, ErrorCode>)
        ensures
            match (r, spec_project(block@, self@.schema, self@.pairs)) {
                (Ok(b), Ok(s)) => b@ == s,
                (Err(e), Err(s)) => e@ == s,
                _ => false,
            },
    {
        self.projection.project_block(block)
    }

    /// The next event, where the step says what to do next; the channel is asked for a block
    /// exactly when [`polls_channel`] holds, and what it gave decides the rest.
    pub fn event(&mut self, ports: &PortStatus) -> (step: EventStep)
        ensures
            exists|received: Option<SpecBlock>|
                (final(self)@, step@) == spec_event(old(self)@, *ports, received),
            !polls_channel(old(self)@, *ports) ==> (final(self)@, step@) == spec_event(
                old(self)@,
                *ports,
                None,
            ),
    {
        let polls = !ports.output_finished && ports.output_can_push && self.output_data.is_none()
            && self.input_data.is_none() && self.receiver_result.is_none();
        let received = if polls {
            receiver_try_recv(&self.receiver)
        } else {
            None
        };
        let ghost r = view_opt_block(received);
        let step = self.event_with(ports, received);
        assert((final(self)@, step@) == spec_event(old(self)@, *ports, r));
        step
    }

    /// The next event, where `received` is what the channel gave when asked for a block
    /// (`None` where it was not asked or had none).
    pub fn event_with(&mut self, ports: &PortStatus, received: Option<DataBlock>) -> (step:
        EventStep)
        ensures
            (final(self)@, step@) == spec_event(old(self)@, *ports, view_opt_block(received)),
    {
        if ports.output_finished {
            return EventStep::Done(Event::Finished, PortAction::FinishInput);
        }
        if !ports.output_can_push {
            return EventStep::Done(Event::NeedConsume, PortAction::SetInputNotNeedData);
        }
        if let Some(output_data) = self.output_data.take() {
            return EventStep::Done(Event::NeedConsume, PortAction::PushOutput(output_data));
        }
        if self.input_data.is_some() || self.receiver_result.is_some() {
            return EventStep::Done(Event::Sync, PortAction::NoAction);
        }
        if let Some(result) = received {
            self.receiver_result = Some(result);
            return EventStep::Done(Event::Sync, PortAction::NoAction);
        }
        if ports.input_finished {
            if !self.finished {
                return EventStep::Done(Event::Async, PortAction::NoAction);
            }
            return EventStep::Done(Event::Finished, PortAction::FinishOutput);
        }
        if ports.input_has_data {
            return EventStep::PullInput;
        }
        EventStep::Done(Event::NeedData, PortAction::SetInputNeedData)
    }

    /// Takes the block pulled from the input port, or the error the pull gave.
    pub fn on_pulled(&mut self, pulled: Result<DataBlock, ErrorCode>) -> (r: Result<
        Event,
        ErrorCode,
    >)
        ensures
            match pulled {
                Ok(b) => r == Ok::<Event, ErrorCode>(Event::Sync) && final(self)@ == (SpecMerge {
                    input_data: Some(b@),
                    ..old(self)@
                }),
                Err(e) => r matches Err(e2) && e2@ == e@ && final(self)@ == old(self)@,
            },
    {
        match pulled {
            Ok(b) => {
                self.input_data = Some(b);
                Ok(Event::Sync)
            },
            Err(e) => Err(e),
        }
    }

    /// Projects the waiting blocks; where a block from each side waits, the output is their
    /// concatenation, the input's rows first.
    pub fn process(&mut self) -> (r: Result<(), ErrorCode>)
        ensures
            final(self)@ == spec_process(old(self)@).0,
            match (r, spec_process(old(self)@).1) {
                (Ok(()), Ok(())) => true,
                (Err(e), Err(s)) => e@ == s,
                _ => false,
            },
    {
        if let Some(input_data) = self.input_data.take() {
            if let Some(receiver_result) = self.receiver_result.take() {
                let a = self.project_block(&input_data)?;
                let b = self.project_block(&receiver_result)?;
                let blocks = vec![a, b];
                assert(blocks@.map_values(|b: DataBlock| b@) =~= seq![a@, b@]);
                self.output_data = Some(DataBlock::concat_blocks(blocks.as_slice())?);
            } else {
                self.output_data = Some(self.project_block(&input_data)?);
            }
        } else if let Some(receiver_result) = self.receiver_result.take() {
            self.output_data = Some(self.project_block(&receiver_result)?);
        }
        Ok(())
    }

    /// Takes what awaiting the channel gave: a block, or nothing when it is closed and empty;
    /// nothing changes once the channel is known to be finished.
    pub fn on_received(&mut self, received: Option<DataBlock>)
        ensures
            final(self)@ == spec_on_received(old(self)@, view_opt_block(received)),
    {
        if !self.finished {
            if let Some(result) = received {
                self.receiver_result = Some(result);
                return;
            }
            self.finished = true;
        }
    }
}


// ---------------------------------------------------------------------------
// Laws
// ---------------------------------------------------------------------------
/// The output port is finished only once the channel is closed and drained, the input port is
/// finished, and no block waits to be processed or pushed.
pub proof fn law_finish_only_when_drained(
    s: SpecMerge,
    ports: PortStatus,
    received: Option<SpecBlock>,
)
    ensures
        spec_event(s, ports, received).1 == SpecStep::Done(Event::Finished, SpecAction::FinishOutput)
            ==> {
            &&& s.finished
            &&& ports.input_finished
            &&& s.input_data is None
            &&& s.receiver_result is None
            &&& s.output_data is None
            &&& received is None
        },
{
}

/// Once the channel is known to be finished it stays so; only an await that gives nothing
/// makes it so.
pub proof fn law_finished_is_kept(s: SpecMerge, ports: PortStatus, received: Option<SpecBlock>)
    ensures
        spec_event(s, ports, received).0.finished == s.finished,
        spec_process(s).0.finished == s.finished,
        spec_on_received(s, received).finished == (s.finished || received is None),
{
}

/// A block taken from the input and one from the channel are pushed as one block: each column
/// holds the input's projected values, then the channel's.
pub proof fn law_input_rows_first(s: SpecMerge)
    requires
        s.input_data matches Some(a) && spec_project(a, s.schema, s.pairs) is Ok,
        s.receiver_result matches Some(b) && spec_project(b, s.schema, s.pairs) is Ok,
    ensures
        ({
            let pa = spec_project(s.input_data->0, s.schema, s.pairs)->Ok_0;
            let pb = spec_project(s.receiver_result->0, s.schema, s.pairs)->Ok_0;
            &&& spec_process(s).1 is Ok
            &&& spec_process(s).0.input_data is None
            &&& spec_process(s).0.receiver_result is None
            &&& spec_process(s).0.output_data matches Some(c) && c.schema == s.schema && forall|
                i: int,
            |
                0 <= i < s.schema.len() ==> #[trigger] c.columns[i] == pa.columns[i]
                    + pb.columns[i]
        }),
{
    let pa = spec_project(s.input_data->0, s.schema, s.pairs)->Ok_0;
    let pb = spec_project(s.receiver_result->0, s.schema, s.pairs)->Ok_0;
    law_concat_two(pa, pb);
}

/// A block given by the channel when it is asked is kept to be processed.
pub proof fn law_received_block_is_kept(s: SpecMerge, ports: PortStatus, b: SpecBlock)
    requires
        polls_channel(s, ports),
    ensures
        spec_event(s, ports, Some(b)).0.receiver_result == Some(b),
        spec_event(s, ports, Some(b)).1 == SpecStep::Done(Event::Sync, SpecAction::NoAction),
{
}

/// Asking for an event loses no block: a block waiting to be processed stays, and a block
/// waiting to be pushed stays unless the step pushes it.
pub proof fn law_event_keeps_blocks(s: SpecMerge, ports: PortStatus, received: Option<SpecBlock>)
    ensures
        spec_event(s, ports, received).0.input_data == s.input_data,
        s.receiver_result is Some ==> spec_event(s, ports, received).0.receiver_result
            == s.receiver_result,
        s.output_data matches Some(b) ==> spec_event(s, ports, received).0.output_data
            == s.output_data || spec_event(s, ports, received).1 == SpecStep::Done(
            Event::NeedConsume,
            SpecAction::PushOutput(b),
        ),
{
}


/// The column of `b` that the pair `p` names: the first one named `p.0`, else the first one
/// named `p.1`.
pub open spec fn named_column(b: SpecBlock, p: (Seq<char>, Seq<char>)) -> Option<Seq<SpecValue>> {
    if field_index(b.schema, p.0) is Some {
        Some(b.columns[field_index(b.schema, p.0)->0])
    } else if field_index(b.schema, p.1) is Some {
        Some(b.columns[field_index(b.schema, p.1)->0])
    } else {
        None
    }
}

proof fn lemma_project_columns(b: SpecBlock, pairs: Seq<(Seq<char>, Seq<char>)>)
    ensures
        spec_project_columns(b, pairs) is Ok == forall|k: int|
            0 <= k < pairs.len() ==> #[trigger] named_column(b, pairs[k]) is Some,
        spec_project_columns(b, pairs) matches Ok(cols) ==> cols.len() == pairs.len() && forall|
            k: int,
        | 0 <= k < pairs.len() ==> named_column(b, pairs[k]) == Some(#[trigger] cols[k]),
        spec_project_columns(b, pairs) matches Err(e) ==> exists|k: int|
            0 <= k < pairs.len() && #[trigger] named_column(b, pairs[k]) is None && e
                == SpecError::BadArguments(pairs[k].1) && forall|i: int|
                0 <= i < k ==> named_column(b, pairs[i]) is Some,
    decreases pairs.len(),
{
    if pairs.len() > 0 {
        let init = pairs.drop_last();
        lemma_project_columns(b, init);
        assert forall|k: int| 0 <= k < init.len() implies init[k] == pairs[k] by {}
        let last = pairs.len() - 1;
        assert(pairs[last] == pairs.last());
        if let Err(e) = spec_project_columns(b, init) {
            let k = choose|k: int|
                0 <= k < init.len() && #[trigger] named_column(b, init[k]) is None && e
                    == SpecError::BadArguments(init[k].1) && forall|i: int|
                    0 <= i < k ==> named_column(b, init[i]) is Some;
            assert(named_column(b, pairs[k]) is None);
            assert forall|i: int| 0 <= i < k implies named_column(b, pairs[i]) is Some by {
                assert(init[i] == pairs[i]);
            }
        } else if named_column(b, pairs.last()) is None {
            assert(named_column(b, pairs[last]) is None);
            assert forall|i: int| 0 <= i < last implies named_column(b, pairs[i]) is Some by {
                assert(init[i] == pairs[i]);
            }
        } else {
            let cols = spec_project_columns(b, init)->Ok_0;
            assert forall|k: int| 0 <= k < pairs.len() implies #[trigger] named_column(
                b,
                pairs[k],
            ) is Some by {
                if k < last {
                    assert(init[k] == pairs[k]);
                }
            }
            assert forall|k: int| 0 <= k < pairs.len() implies named_column(b, pairs[k]) == Some(
                #[trigger] cols.push(pick_column(b, pairs.last())->0)[k],
            ) by {
                if k < last {
                    assert(init[k] == pairs[k]);
                }
            }
        }
    }
}

/// Projecting a block succeeds exactly where every pair names a column of it; the projection
/// has the given schema and one column per pair, in order: the block's first column named by
/// the pair's left name, else its first column named by the right name. Otherwise the error
/// names the right name of the first pair that names no column.
pub proof fn law_project(b: SpecBlock, schema: Seq<SpecField>, pairs: Seq<(Seq<char>, Seq<char>)>)
    ensures
        spec_project(b, schema, pairs) is Ok == forall|k: int|
            0 <= k < pairs.len() ==> #[trigger] named_column(b, pairs[k]) is Some,
        spec_project(b, schema, pairs) matches Ok(c) ==> {
            &&& c.schema == schema
            &&& c.columns.len() == pairs.len()
            &&& forall|k: int|
                0 <= k < pairs.len() ==> named_column(b, pairs[k]) == Some(#[trigger] c.columns[k])
        },
        spec_project(b, schema, pairs) matches Err(e) ==> exists|k: int|
            0 <= k < pairs.len() && #[trigger] named_column(b, pairs[k]) is None && e
                == SpecError::BadArguments(pairs[k].1) && forall|i: int|
                0 <= i < k ==> named_column(b, pairs[i]) is Some,
{
    lemma_project_columns(b, pairs);
}

/// Processing moves the waiting blocks to the output: a block from the input alone, or from
/// the channel alone, is projected and left to be pushed; with none waiting nothing changes.
/// A projection that fails is the error, and the block is dropped. The schema, the pairs and
/// whether the channel is finished stay.
pub proof fn law_process_single_block(s: SpecMerge)
    requires
        s.input_data is None || s.receiver_result is None,
    ensures
        ({
            let (s2, r) = spec_process(s);
            let waiting = if s.input_data is Some {
                s.input_data
            } else {
                s.receiver_result
            };
            &&& s2.schema == s.schema
            &&& s2.pairs == s.pairs
            &&& s2.finished == s.finished
            &&& s2.input_data is None
            &&& s2.receiver_result is None
            &&& match waiting {
                None => s2 == s && r is Ok,
                Some(b) => match spec_project(b, s.schema, s.pairs) {
                    Ok(p) => r is Ok && s2.output_data == Some(p),
                    Err(e) => r == Err::<(), SpecError>(e) && s2.output_data == s.output_data,
                },
            }
        }),
{
}


/// The order in which an event decides: a finished output finishes the processor; an output
/// that takes no data waits; a block waiting to be pushed is pushed, and no longer waits; a
/// block waiting to be processed asks for processing; a block from the channel is kept to be
/// processed; a finished input finishes the processor once the channel is finished, else waits
/// for the channel; input data is pulled; else the processor asks for data. Only the pushed
/// block and the received one change the state.
pub proof fn law_event_order(s: SpecMerge, ports: PortStatus, received: Option<SpecBlock>)
    ensures
        ({
            let (s2, step) = spec_event(s, ports, received);
            if ports.output_finished {
                s2 == s && step == SpecStep::Done(Event::Finished, SpecAction::FinishInput)
            } else if !ports.output_can_push {
                s2 == s && step == SpecStep::Done(Event::NeedConsume, SpecAction::SetInputNotNeedData)
            } else if s.output_data is Some {
                s2 == SpecMerge { output_data: None, ..s } && step == SpecStep::Done(
                    Event::NeedConsume,
                    SpecAction::PushOutput(s.output_data->0),
                )
            } else if s.input_data is Some || s.receiver_result is Some {
                s2 == s && step == SpecStep::Done(Event::Sync, SpecAction::NoAction)
            } else if received is Some {
                s2 == SpecMerge { receiver_result: received, ..s } && step == SpecStep::Done(
                    Event::Sync,
                    SpecAction::NoAction,
                )
            } else if ports.input_finished {
                s2 == s && step == if s.finished {
                    SpecStep::Done(Event::Finished, SpecAction::FinishOutput)
                } else {
                    SpecStep::Done(Event::Async, SpecAction::NoAction)
                }
            } else if ports.input_has_data {
                s2 == s && step == SpecStep::PullInput
            } else {
                s2 == s && step == SpecStep::Done(Event::NeedData, SpecAction::SetInputNeedData)
            }
        }),
{
}

/// Awaiting the channel keeps a block it gives to be processed, and marks the channel finished
/// where it gives none; once finished, nothing changes.
pub proof fn law_on_received(s: SpecMerge, received: Option<SpecBlock>)
    ensures
        ({
            let s2 = spec_on_received(s, received);
            &&& s.finished ==> s2 == s
            &&& !s.finished && received is Some ==> s2 == SpecMerge { receiver_result: received, ..s }
            &&& !s.finished && received is None ==> s2 == SpecMerge { finished: true, ..s }
        }),
{
}


/// Processing a block from each side empties both; the result is the error of the input's
/// projection, else that of the channel's, else their concatenation, which waits to be pushed.
pub proof fn law_process_both_blocks(s: SpecMerge)
    requires
        s.input_data is Some,
        s.receiver_result is Some,
    ensures
        ({
            let (s2, r) = spec_process(s);
            let pa = spec_project(s.input_data->0, s.schema, s.pairs);
            let pb = spec_project(s.receiver_result->0, s.schema, s.pairs);
            &&& s2.input_data is None
            &&& s2.receiver_result is None
            &&& s2.schema == s.schema && s2.pairs == s.pairs && s2.finished == s.finished
            &&& pa is Err ==> r == Err::<(), SpecError>(pa->Err_0) && s2.output_data == s.output_data
            &&& pa is Ok && pb is Err ==> r == Err::<(), SpecError>(pb->Err_0) && s2.output_data
                == s.output_data
            &&& pa is Ok && pb is Ok ==> r is Ok && s2.output_data == Some(
                spec_concat_blocks(seq![pa->Ok_0, pb->Ok_0])->Ok_0,
            ) && spec_concat_blocks(seq![pa->Ok_0, pb->Ok_0]) is Ok
        }),
{
    if let (Ok(pa), Ok(pb)) = (
        spec_project(s.input_data->0, s.schema, s.pairs),
        spec_project(s.receiver_result->0, s.schema, s.pairs),
    ) {
        assert(pa.schema == pb.schema);
        let bs = seq![pa, pb];
        assert(spec_concat_blocks(bs) is Ok) by {
            assert forall|j: int| 0 <= j < bs.len() implies #[trigger] bs[j].schema == bs[0].schema by {
                if j == 1 {
                    assert(bs[1] == pb);
                }
            }
        }
    }
}

} // verus!
