//! The decisions of the batching scheduler: when a batch is closed, how long the next
//! accumulation window lasts, and which result goes back to which request.
//!
//! The scheduler itself waits on channels and a clock and runs the model. After each
//! thing that happens to it (requests arrive, the window elapses, a command comes
//! in, the request stream ends) it asks the `NetworkBatchedExecutor` what to do.

use vstd::prelude::*;

verus! {

/// The number of delivery operations that may be in flight while the next batch is
/// gathered.
pub const MAX_PAR_RESPS: usize = 1;

/// What the scheduler can be told while it runs.
#[derive(Clone, Copy, Debug, PartialEq, Eq, Structural)]
pub enum BatcherCommand {
    /// From now on, close a batch at this many requests.
    SetBatchSize(usize),
}

/// Why a scheduler was not set up.
#[derive(Clone, Copy, Debug, PartialEq, Eq, Structural)]
pub enum ConfigurationError {
    /// The batch ceiling is zero.
    ZeroBatchSize,
}

/// The requests of one closed batch: the model inputs, and for each input the
/// conduit on which its result goes back.
pub struct Batch<I, R> {
    inputs: Vec<I>,
    responders: Vec<R>,
}

/// The requests of a batch in the order in which the model sees them: the request
/// that arrived last comes first.
pub open spec fn batch_order<I, R>(requests: Seq<(I, R)>) -> Seq<(I, R)> {
    Seq::new(requests.len(), |i: int| requests[requests.len() - 1 - i])
}

impl<I, R> View for Batch<I, R> {
    type V = Seq<(I, R)>;

    /// The requests of the batch, each input with its conduit, in the order in which
    /// the model sees them.
    closed spec fn view(&self) -> Seq<(I, R)> {
        Seq::new(self.inputs@.len(), |i: int| (self.inputs@[i], self.responders@[i]))
    }
}

impl<I, R> Batch<I, R> {
    #[verifier::type_invariant]
    spec fn inv(self) -> bool {
        self.inputs@.len() == self.responders@.len()
    }

    /// Takes the requests out of `buffer`, last one first.
    fn from_buffer(buffer: Vec<(I, R)>) -> (batch: Self)
        ensures
            batch@ == batch_order(buffer@),
    {
        let ghost requests = buffer@;
        let mut buffer = buffer;
        let mut inputs: Vec<I> = Vec::new();
        let mut responders: Vec<R> = Vec::new();
        while buffer.len() > 0
            invariant
                buffer@.len() + inputs@.len() == requests.len(),
                inputs@.len() == responders@.len(),
                buffer@ == requests.take(buffer@.len() as int),
                forall|i: int|
                    0 <= i < inputs@.len() ==> (#[trigger] inputs@[i], responders@[i])
                        == requests[requests.len() - 1 - i],
            decreases buffer.len(),
        {
            let ghost before = buffer@;
            match buffer.pop() {
                Some(request) => {
                    assert(request == requests[before.len() - 1]);
                    assert(buffer@ =~= requests.take(buffer@.len() as int));
                    let (input, responder) = request;
                    inputs.push(input);
                    responders.push(responder);
                },
                None => {},
            }
        }
        let batch = Batch { inputs, responders };
        assert(batch@ =~= batch_order(requests));
        batch
    }

    /// The number of requests in the batch.
    pub fn len(&self) -> (len: usize)
        ensures
            len == self@.len(),
    {
        self.inputs.len()
    }

    /// The model inputs, in the order in which the model sees them.
    pub fn inputs(&self) -> (inputs: &Vec<I>)
        ensures
            inputs@.len() == self@.len(),
            forall|i: int| 0 <= i < self@.len() ==> #[trigger] inputs@[i] == self@[i].0,
    {
        &self.inputs
    }

    /// The inputs and the conduits of the batch: entry `i` of the one belongs to
    /// entry `i` of the other.
    pub fn into_parts(self) -> (parts: (Vec<I>, Vec<R>))
        ensures
            parts.0@.len() == self@.len(),
            parts.1@.len() == self@.len(),
            forall|i: int|
                0 <= i < self@.len() ==> (#[trigger] parts.0@[i], parts.1@[i]) == self@[i],
    {
        proof {
            use_type_invariant(&self);
        }
        (self.inputs, self.responders)
    }
}

/// Gives each conduit the output that the model computed for its input: output `i`
/// goes to conduit `i`.
pub fn pair_outputs<R, O>(responders: Vec<R>, outputs: Vec<O>) -> (deliveries: Vec<(R, O)>)
    requires
        responders@.len() == outputs@.len(),
    ensures
        deliveries@.len() == responders@.len(),
        forall|i: int|
            0 <= i < deliveries@.len() ==> #[trigger] deliveries@[i] == (
                responders@[i],
                outputs@[i],
            ),
{
    let ghost all_responders = responders@;
    let ghost all_outputs = outputs@;
    let mut responders = responders;
    let mut outputs = outputs;
    let mut reversed: Vec<(R, O)> = Vec::new();
    while responders.len() > 0
        invariant
            responders@.len() == outputs@.len(),
            responders@.len() + reversed@.len() == all_responders.len(),
            all_responders.len() == all_outputs.len(),
            responders@ == all_responders.take(responders@.len() as int),
            outputs@ == all_outputs.take(outputs@.len() as int),
            forall|i: int|
                0 <= i < reversed@.len() ==> #[trigger] reversed@[i] == (
                    all_responders[all_responders.len() - 1 - i],
                    all_outputs[all_outputs.len() - 1 - i],
                ),
        decreases responders.len(),
    {
        let ghost responders_before = responders@;
        let ghost outputs_before = outputs@;
        match (responders.pop(), outputs.pop()) {
            (Some(responder), Some(output)) => {
                assert(responders@ =~= all_responders.take(responders@.len() as int));
                assert(outputs@ =~= all_outputs.take(outputs@.len() as int));
                reversed.push((responder, output));
            },
            _ => {},
        }
    }
    let mut deliveries: Vec<(R, O)> = Vec::new();
    while reversed.len() > 0
        invariant
            reversed@.len() + deliveries@.len() == all_responders.len(),
            all_responders.len() == all_outputs.len(),
            forall|i: int|
                0 <= i < reversed@.len() ==> #[trigger] reversed@[i] == (
                    all_responders[all_responders.len() - 1 - i],
                    all_outputs[all_outputs.len() - 1 - i],
                ),
            forall|i: int|
                0 <= i < deliveries@.len() ==> #[trigger] deliveries@[i] == (
                    all_responders[i],
                    all_outputs[i],
                ),
        decreases reversed.len(),
    {
        match reversed.pop() {
            Some(delivery) => {
                deliveries.push(delivery);
            },
            None => {},
        }
    }
    deliveries
}

/// How many of `in_flight` delivery operations must finish before the next batch is
/// gathered: all but `MAX_PAR_RESPS`.
pub fn deliveries_to_await(in_flight: usize) -> (count: usize)
    ensures
        count == if in_flight > MAX_PAR_RESPS {
            in_flight - MAX_PAR_RESPS
        } else {
            0
        },
{
    if in_flight > MAX_PAR_RESPS {
        in_flight - MAX_PAR_RESPS
    } else {
        0
    }
}

/// What the scheduler does next.
pub enum BatcherStep<I, R> {
    /// Go on waiting in the open window.
    Wait,
    /// The window closed on an empty buffer: open the next, longer window.
    Backoff,
    /// Run the model on this batch, hand out the results, and open the next window.
    Run(Batch<I, R>),
    /// No request can come any more and none is left: stop.
    Stop,
}

/// What the scheduler keeps between its steps.
pub struct BatcherView<I, R> {
    /// The number of requests at which a batch is closed.
    pub max_batch: nat,
    /// The length of the window after a batch that was not empty.
    pub base_delay: nat,
    /// The length of the window that is open, or that opens next.
    pub window: nat,
    /// The requests gathered in the open window, in the order of their arrival.
    pub buffer: Seq<(I, R)>,
}

/// The state of the batching scheduler between two of its steps.
pub struct NetworkBatchedExecutor<I, R> {
    max_batch: usize,
    base_delay: u64,
    acc_time: u64,
    buffer: Vec<(I, R)>,
}

impl<I, R> View for NetworkBatchedExecutor<I, R> {
    type V = BatcherView<I, R>;

    closed spec fn view(&self) -> BatcherView<I, R> {
        BatcherView {
            max_batch: self.max_batch as nat,
            base_delay: self.base_delay as nat,
            window: self.acc_time as nat,
            buffer: self.buffer@,
        }
    }
}

/// The state after a batch was closed: nothing is buffered, and the next window has
/// the base length.
pub open spec fn after_batch<I, R>(state: BatcherView<I, R>) -> BatcherView<I, R> {
    BatcherView {
        max_batch: state.max_batch,
        base_delay: state.base_delay,
        window: state.base_delay,
        buffer: Seq::empty(),
    }
}

/// The state with other requests in the buffer.
pub open spec fn with_buffer<I, R>(state: BatcherView<I, R>, buffer: Seq<(I, R)>) -> BatcherView<
    I,
    R,
> {
    BatcherView {
        max_batch: state.max_batch,
        base_delay: state.base_delay,
        window: state.window,
        buffer,
    }
}

/// The state with another ceiling.
pub open spec fn with_ceiling<I, R>(state: BatcherView<I, R>, max_batch: nat) -> BatcherView<
    I,
    R,
> {
    BatcherView {
        max_batch,
        base_delay: state.base_delay,
        window: state.window,
        buffer: state.buffer,
    }
}

/// The state with a window of another length.
pub open spec fn with_window<I, R>(state: BatcherView<I, R>, window: nat) -> BatcherView<I, R> {
    BatcherView {
        max_batch: state.max_batch,
        base_delay: state.base_delay,
        window,
        buffer: state.buffer,
    }
}

/// Whether `step` runs the model on exactly `requests`, last one first.
pub open spec fn runs<I, R>(step: BatcherStep<I, R>, requests: Seq<(I, R)>) -> bool {
    match step {
        BatcherStep::Run(batch) => batch@ == batch_order(requests),
        _ => false,
    }
}

impl<I, R> NetworkBatchedExecutor<I, R> {
    /// The ceiling is at least one, and fewer requests are buffered than the ceiling
    /// allows: a buffer that reaches the ceiling is closed at once.
    #[verifier::type_invariant]
    pub open spec fn inv(self) -> bool {
        &&& self@.max_batch >= 1
        &&& self@.buffer.len() < self@.max_batch
    }

    /// A scheduler that closes a batch at `max_batch` requests, or after
    /// `batch_acc_time` nanoseconds. A ceiling of zero is refused.
    pub fn new(max_batch: usize, batch_acc_time: u64) -> (executor: Result<
        Self,
        ConfigurationError,
    >)
        ensures
            max_batch == 0 ==> executor == Err::<Self, ConfigurationError>(
                ConfigurationError::ZeroBatchSize,
            ),
            max_batch > 0 ==> executor.is_ok() && executor->Ok_0@ == (BatcherView::<I, R> {
                max_batch: max_batch as nat,
                base_delay: batch_acc_time as nat,
                window: batch_acc_time as nat,
                buffer: Seq::empty(),
            }),
    {
        if max_batch == 0 {
            Err(ConfigurationError::ZeroBatchSize)
        } else {
            Ok(
                Self {
                    max_batch,
                    base_delay: batch_acc_time,
                    acc_time: batch_acc_time,
                    buffer: Vec::new(),
                },
            )
        }
    }

    /// The length in nanoseconds of the window that is open, or that opens next.
    pub fn window(&self) -> (nanos: u64)
        ensures
            nanos == self@.window,
    {
        self.acc_time
    }

    /// The number of requests at which a batch is closed.
    pub fn max_batch(&self) -> (ceiling: usize)
        ensures
            ceiling == self@.max_batch,
    {
        self.max_batch
    }

    /// The number of requests that still fit into the open window: at least one.
    pub fn room(&self) -> (room: usize)
        ensures
            room == self@.max_batch - self@.buffer.len(),
            room >= 1,
    {
        proof {
            use_type_invariant(self);
        }
        self.max_batch - self.buffer.len()
    }

    /// The number of requests gathered in the open window.
    pub fn buffered(&self) -> (len: usize)
        ensures
            len == self@.buffer.len(),
    {
        self.buffer.len()
    }

    /// Requests arrived. They join the buffer behind those that arrived before; a
    /// buffer that has reached the ceiling is closed and run, and the next window has
    /// the base length again.
    pub fn on_requests(&mut self, requests: Vec<(I, R)>) -> (step: BatcherStep<I, R>)
        ensures
            old(self)@.buffer.len() + requests@.len() >= old(self)@.max_batch ==> runs(
                step,
                old(self)@.buffer + requests@,
            ) && final(self)@ == after_batch(old(self)@),
            old(self)@.buffer.len() + requests@.len() < old(self)@.max_batch ==> step is Wait
                && final(self)@ == with_buffer(old(self)@, old(self)@.buffer + requests@),
    {
        proof {
            use_type_invariant(&*self);
        }
        let mut requests = requests;
        let mut buffer: Vec<(I, R)> = Vec::new();
        core::mem::swap(&mut self.buffer, &mut buffer);
        buffer.append(&mut requests);
        if buffer.len() >= self.max_batch {
            self.acc_time = self.base_delay;
            BatcherStep::Run(Batch::from_buffer(buffer))
        } else {
            self.buffer = buffer;
            BatcherStep::Wait
        }
    }

    /// The window elapsed. What was gathered is run, and the next window has the base
    /// length; where nothing was gathered, the next window is twice as long.
    pub fn on_deadline(&mut self) -> (step: BatcherStep<I, R>)
        requires
            old(self)@.buffer.len() == 0 ==> old(self)@.window * 2 <= u64::MAX,
        ensures
            old(self)@.buffer.len() == 0 ==> step is Backoff && final(self)@ == with_window(
                old(self)@,
                old(self)@.window * 2,
            ),
            old(self)@.buffer.len() > 0 ==> runs(step, old(self)@.buffer) && final(self)@
                == after_batch(old(self)@),
    {
        proof {
            use_type_invariant(&*self);
        }
        if self.buffer.len() == 0 {
            self.acc_time = self.acc_time * 2;
            BatcherStep::Backoff
        } else {
            let mut buffer: Vec<(I, R)> = Vec::new();
            core::mem::swap(&mut self.buffer, &mut buffer);
            self.acc_time = self.base_delay;
            BatcherStep::Run(Batch::from_buffer(buffer))
        }
    }

    /// A command came in. The ceiling changes at once; a buffer that has reached the
    /// new ceiling is closed and run.
    pub fn on_command(&mut self, command: BatcherCommand) -> (step: BatcherStep<I, R>)
        requires
            command matches BatcherCommand::SetBatchSize(size) && size >= 1,
        ensures
            ({
                let BatcherCommand::SetBatchSize(size) = command;
                &&& old(self)@.buffer.len() >= size ==> runs(step, old(self)@.buffer)
                    && final(self)@ == after_batch(with_ceiling(old(self)@, size as nat))
                &&& old(self)@.buffer.len() < size ==> step is Wait && final(self)@
                    == with_ceiling(old(self)@, size as nat)
            }),
    {
        proof {
            use_type_invariant(&*self);
        }
        let BatcherCommand::SetBatchSize(size) = command;
        if self.buffer.len() >= size {
            let mut buffer: Vec<(I, R)> = Vec::new();
            core::mem::swap(&mut self.buffer, &mut buffer);
            self.max_batch = size;
            self.acc_time = self.base_delay;
            BatcherStep::Run(Batch::from_buffer(buffer))
        } else {
            self.max_batch = size;
            BatcherStep::Wait
        }
    }

    /// The request stream ended: nobody can send a request any more. What is left in
    /// the buffer is run as a last batch; with an empty buffer the scheduler stops.
    pub fn on_closed(&mut self) -> (step: BatcherStep<I, R>)
        ensures
            old(self)@.buffer.len() == 0 ==> step is Stop && final(self)@ == old(self)@,
            old(self)@.buffer.len() > 0 ==> runs(step, old(self)@.buffer) && final(self)@
                == after_batch(old(self)@),
    {
        proof {
            use_type_invariant(&*self);
        }
        if self.buffer.len() == 0 {
            BatcherStep::Stop
        } else {
            let mut buffer: Vec<(I, R)> = Vec::new();
            core::mem::swap(&mut self.buffer, &mut buffer);
            self.acc_time = self.base_delay;
            BatcherStep::Run(Batch::from_buffer(buffer))
        }
    }
}

/// Results go back to the request they were computed for: where the model turns row
/// `i` of the batch into output `i`, and `pair_outputs` hands the outputs to the
/// conduits of the batch, request `k` of the buffer finds its input in one row of the
/// batch and gets the output of that row on its own conduit.
pub proof fn lemma_results_reach_their_requesters<I, R, O>(
    requests: Seq<(I, R)>,
    outputs: Seq<O>,
    deliveries: Seq<(R, O)>,
    k: int,
)
    requires
        0 <= k < requests.len(),
        outputs.len() == requests.len(),
        deliveries.len() == requests.len(),
        forall|i: int|
            0 <= i < deliveries.len() ==> #[trigger] deliveries[i] == (
                batch_order(requests)[i].1,
                outputs[i],
            ),
    ensures
        batch_order(requests)[requests.len() - 1 - k].0 == requests[k].0,
        deliveries[requests.len() - 1 - k] == (requests[k].1, outputs[requests.len() - 1 - k]),
{
}

/// A batch holds every request of the buffer once: closing a batch neither drops nor
/// repeats a request.
pub proof fn lemma_batch_keeps_requests<I, R>(requests: Seq<(I, R)>)
    ensures
        batch_order(requests).len() == requests.len(),
        batch_order(requests).to_multiset() == requests.to_multiset(),
{
    assert(batch_order(requests) =~= requests.reverse());
    requests.lemma_reverse_to_multiset();
}

} // verus!
