use vstd::prelude::*;

verus! {

/// The binding pattern that routes every key under `queue` to it.
pub open spec fn routing_key_of(queue: Seq<char>) -> Seq<char> {
    queue + seq!['.', '#']
}

/// The routing key for a queue: its name followed by the wildcard suffix `.#`.
pub fn routing_key(queue: &str) -> (r: String)
    ensures
        r@ == routing_key_of(queue@),
{
    let mut r = String::from_str(queue);
    r.append(".#");
    proof {
        reveal_strlit(".#");
    }
    r
}

/// A queue name that cannot take part in a topology: empty, or named
/// before at a lower position.
pub open spec fn bad_queue_at(queues: Seq<Seq<char>>, j: int) -> bool {
    queues[j].len() == 0 || exists|i: int| 0 <= i < j && queues[i] == queues[j]
}

/// A list of queue names is usable when it is non-empty, and every name is
/// non-empty and appears once.
pub open spec fn valid_queue_list(queues: Seq<Seq<char>>) -> bool {
    &&& queues.len() > 0
    &&& forall|j: int| 0 <= j < queues.len() ==> !bad_queue_at(queues, j)
}

/// `e` is the error for `queues`: the list is empty, or `e` names its first
/// bad entry and why it is bad.
pub open spec fn spec_error_of(queues: Seq<Seq<char>>, e: SpecError) -> bool {
    match e {
        SpecError::NoQueues => queues.len() == 0,
        SpecError::EmptyQueueName { index } => {
            &&& queues.len() > 0
            &&& index < queues.len()
            &&& queues[index as int].len() == 0
            &&& forall|k: int| 0 <= k < index ==> !bad_queue_at(queues, k)
        },
        SpecError::DuplicateQueue { index, name } => {
            &&& index < queues.len()
            &&& name@ == queues[index as int]
            &&& queues[index as int].len() > 0
            &&& exists|i: int| 0 <= i < index && queues[i] == queues[index as int]
            &&& forall|k: int| 0 <= k < index ==> !bad_queue_at(queues, k)
        },
    }
}

/// Why a list of queue names was refused.
#[derive(Debug, PartialEq, Eq)]
pub enum SpecError {
    NoQueues,
    EmptyQueueName { index: usize },
    DuplicateQueue { index: usize, name: String },
}

/// One exchange and the queues bound to it.
#[derive(Debug)]
pub struct TopologySpec {
    exchange: String,
    queues: Vec<String>,
}

pub open spec fn names_of(v: Seq<String>) -> Seq<Seq<char>> {
    v.map_values(|s: String| s@)
}

impl TopologySpec {
    pub closed spec fn exchange_view(&self) -> Seq<char> {
        self.exchange@
    }

    pub closed spec fn queues_view(&self) -> Seq<Seq<char>> {
        names_of(self.queues@)
    }

    pub open spec fn wf(&self) -> bool {
        valid_queue_list(self.queues_view())
    }

    /// Builds a topology, refusing the first queue name that is empty or
    /// repeated, and an empty list.
    pub fn new(exchange: String, queues: Vec<String>) -> (r: Result<TopologySpec, SpecError>)
        ensures
            r is Ok <==> valid_queue_list(names_of(queues@)),
            r matches Ok(t) ==> t.wf() && t.exchange_view() == exchange@ && t.queues_view()
                == names_of(queues@),
            r matches Err(e) ==> spec_error_of(names_of(queues@), e),
    {
        let ghost names = names_of(queues@);
        if queues.len() == 0 {
            return Err(SpecError::NoQueues);
        }
        let mut j: usize = 0;
        while j < queues.len()
            invariant
                names == names_of(queues@),
                0 <= j <= queues@.len(),
                forall|k: int| 0 <= k < j ==> !bad_queue_at(names, k),
            decreases queues@.len() - j,
        {
            if queues[j].as_str().is_empty() {
                assert(names[j as int] == queues@[j as int]@);
                assert(bad_queue_at(names, j as int));
                return Err(SpecError::EmptyQueueName { index: j });
            }
            assert(names[j as int] == queues@[j as int]@);
            let mut i: usize = 0;
            while i < j
                invariant
                    names == names_of(queues@),
                    0 <= i <= j < queues@.len(),
                    names[j as int].len() > 0,
                    forall|k: int| 0 <= k < j ==> !bad_queue_at(names, k),
                    forall|k: int| 0 <= k < i ==> names[k] != names[j as int],
                decreases j - i,
            {
                if queues[i] == queues[j] {
                    assert(names[i as int] == queues@[i as int]@);
                    assert(names[j as int] == queues@[j as int]@);
                    assert(bad_queue_at(names, j as int));
                    return Err(SpecError::DuplicateQueue { index: j, name: queues[j].clone() });
                }
                assert(names[i as int] == queues@[i as int]@);
                assert(names[j as int] == queues@[j as int]@);
                i += 1;
            }
            assert(names[j as int] == queues@[j as int]@);
            assert(!bad_queue_at(names, j as int));
            j += 1;
        }
        Ok(TopologySpec { exchange, queues })
    }

    pub fn exchange(&self) -> (r: &str)
        ensures
            r@ == self.exchange_view(),
    {
        self.exchange.as_str()
    }

    pub fn queues(&self) -> (r: &Vec<String>)
        ensures
            names_of(r@) == self.queues_view(),
    {
        &self.queues
    }
}

/// A broker operation over plain names: `Bind(queue, exchange, routing_key)`.
pub enum OpModel {
    DeclareExchange(Seq<char>),
    DeclareQueue(Seq<char>),
    Bind(Seq<char>, Seq<char>, Seq<char>),
}

/// One declaration or binding that provisioning sends to the broker.
#[derive(Debug)]
pub enum TopologyOp {
    DeclareExchange { name: String },
    DeclareQueue { name: String },
    BindQueue { queue: String, exchange: String, routing_key: String },
}

impl View for TopologyOp {
    type V = OpModel;

    open spec fn view(&self) -> OpModel {
        match self {
            TopologyOp::DeclareExchange { name } => OpModel::DeclareExchange(name@),
            TopologyOp::DeclareQueue { name } => OpModel::DeclareQueue(name@),
            TopologyOp::BindQueue { queue, exchange, routing_key } => OpModel::Bind(
                queue@,
                exchange@,
                routing_key@,
            ),
        }
    }
}

impl TopologyOp {
    /// The exchange or queue that the operation is about; for a binding, the queue.
    pub fn resource(&self) -> (r: &str)
        ensures
            r@ == match self@ {
                OpModel::DeclareExchange(e) => e,
                OpModel::DeclareQueue(q) => q,
                OpModel::Bind(q, _, _) => q,
            },
    {
        match self {
            TopologyOp::DeclareExchange { name } => name.as_str(),
            TopologyOp::DeclareQueue { name } => name.as_str(),
            TopologyOp::BindQueue { queue, .. } => queue.as_str(),
        }
    }
}

pub open spec fn ops_view(v: Seq<TopologyOp>) -> Seq<OpModel> {
    v.map_values(|o: TopologyOp| o@)
}

/// The operations that provision a topology, in order: the exchange once,
/// then for each queue in turn its declaration and its binding.
pub open spec fn plan_of(exchange: Seq<char>, queues: Seq<Seq<char>>) -> Seq<OpModel>
    decreases queues.len(),
{
    if queues.len() == 0 {
        seq![OpModel::DeclareExchange(exchange)]
    } else {
        let q = queues.last();
        plan_of(exchange, queues.drop_last()).push(OpModel::DeclareQueue(q)).push(
            OpModel::Bind(q, exchange, routing_key_of(q)),
        )
    }
}

/// The declarations that provisioning makes, in order.
pub fn provision_plan(spec: &TopologySpec) -> (r: Vec<TopologyOp>)
    ensures
        ops_view(r@) == plan_of(spec.exchange_view(), spec.queues_view()),
{
    let ghost ex = spec.exchange_view();
    let ghost qs = spec.queues_view();
    let mut r: Vec<TopologyOp> = Vec::new();
    r.push(TopologyOp::DeclareExchange { name: spec.exchange.clone() });
    assert(ops_view(r@) =~= plan_of(ex, qs.take(0)));
    let mut i: usize = 0;
    while i < spec.queues.len()
        invariant
            ex == spec.exchange@,
            qs == names_of(spec.queues@),
            0 <= i <= qs.len(),
            ops_view(r@) == plan_of(ex, qs.take(i as int)),
        decreases qs.len() - i,
    {
        let name = &spec.queues[i];
        let key = routing_key(name.as_str());
        r.push(TopologyOp::DeclareQueue { name: name.clone() });
        r.push(
            TopologyOp::BindQueue {
                queue: name.clone(),
                exchange: spec.exchange.clone(),
                routing_key: key,
            },
        );
        proof {
            let t = qs.take(i + 1);
            assert(t.drop_last() =~= qs.take(i as int));
            assert(t.last() == name@);
            assert(ops_view(r@) =~= plan_of(ex, t));
        }
        i += 1;
    }
    assert(qs.take(qs.len() as int) =~= qs);
    r
}

/// What the broker holds: exchange names, queue names and bindings
/// `(queue, exchange, routing_key)`.
pub struct BrokerModel {
    pub exchanges: Set<Seq<char>>,
    pub queues: Set<Seq<char>>,
    pub bindings: Set<(Seq<char>, Seq<char>, Seq<char>)>,
}

pub open spec fn empty_broker() -> BrokerModel {
    BrokerModel { exchanges: Set::empty(), queues: Set::empty(), bindings: Set::empty() }
}

/// A declaration creates what is absent and leaves what is there: declaring
/// or binding again changes nothing.
pub open spec fn apply_op(b: BrokerModel, op: OpModel) -> BrokerModel {
    match op {
        OpModel::DeclareExchange(e) => BrokerModel { exchanges: b.exchanges.insert(e), ..b },
        OpModel::DeclareQueue(q) => BrokerModel { queues: b.queues.insert(q), ..b },
        OpModel::Bind(q, e, k) => BrokerModel { bindings: b.bindings.insert((q, e, k)), ..b },
    }
}

pub open spec fn apply_ops(b: BrokerModel, ops: Seq<OpModel>) -> BrokerModel
    decreases ops.len(),
{
    if ops.len() == 0 {
        b
    } else {
        apply_op(apply_ops(b, ops.drop_last()), ops.last())
    }
}

pub open spec fn binding_of(exchange: Seq<char>, queue: Seq<char>) -> (
    Seq<char>,
    Seq<char>,
    Seq<char>,
) {
    (queue, exchange, routing_key_of(queue))
}

/// The bindings of a topology, one per queue, in queue order.
pub open spec fn bindings_of(exchange: Seq<char>, queues: Seq<Seq<char>>) -> Seq<
    (Seq<char>, Seq<char>, Seq<char>),
> {
    queues.map_values(|q: Seq<char>| binding_of(exchange, q))
}

/// What provisioning leaves on a broker that held `b`.
pub open spec fn provisioned(b: BrokerModel, exchange: Seq<char>, queues: Seq<Seq<char>>) -> BrokerModel {
    BrokerModel {
        exchanges: b.exchanges.insert(exchange),
        queues: b.queues + queues.to_set(),
        bindings: b.bindings + bindings_of(exchange, queues).to_set(),
    }
}

proof fn lemma_plan_effect(b: BrokerModel, exchange: Seq<char>, queues: Seq<Seq<char>>)
    ensures
        apply_ops(b, plan_of(exchange, queues)) == provisioned(b, exchange, queues),
    decreases queues.len(),
{
    let p = plan_of(exchange, queues);
    if queues.len() == 0 {
        assert(p.drop_last() =~= Seq::<OpModel>::empty());
        assert(queues.to_set() =~= Set::empty());
        assert(bindings_of(exchange, queues).to_set() =~= Set::empty());
        assert(b.queues + Set::empty() =~= b.queues);
        assert(b.bindings + Set::empty() =~= b.bindings);
        assert(apply_ops(b, p) == apply_op(apply_ops(b, p.drop_last()), p.last()));
        assert(apply_ops(b, p) == provisioned(b, exchange, queues));
    } else {
        let init = queues.drop_last();
        let q = queues.last();
        lemma_plan_effect(b, exchange, init);
        let plan_init = plan_of(exchange, init);
        let plan_mid = plan_init.push(OpModel::DeclareQueue(q));
        assert(p.drop_last() =~= plan_mid);
        assert(plan_mid.drop_last() =~= plan_init);
        let prev = provisioned(b, exchange, init);
        let now = provisioned(b, exchange, queues);
        assert(queues =~= init.push(q));
        init.lemma_push_to_set_commute(q);
        let bs = bindings_of(exchange, queues);
        let bs0 = bindings_of(exchange, init);
        assert(bs =~= bs0.push(binding_of(exchange, q)));
        bs0.lemma_push_to_set_commute(binding_of(exchange, q));
        assert(apply_ops(b, plan_mid) == apply_op(prev, OpModel::DeclareQueue(q)));
        assert(now.queues =~= prev.queues.insert(q));
        assert(now.bindings =~= prev.bindings.insert(binding_of(exchange, q)));
        assert(now.exchanges =~= prev.exchanges);
        assert(p.last() == OpModel::Bind(q, exchange, routing_key_of(q)));
        assert(apply_ops(b, p) == apply_op(apply_ops(b, plan_mid), p.last()));
        assert(apply_ops(b, p) == now);
    }
}

/// Provisioning a valid topology on an empty broker creates exactly one
/// exchange, one queue per name, and one binding per queue, whose routing key
/// is the queue's name followed by `.#`.
pub proof fn lemma_provision_creates(spec: &TopologySpec)
    requires
        spec.wf(),
    ensures
        ({
            let ex = spec.exchange_view();
            let qs = spec.queues_view();
            let e = apply_ops(empty_broker(), plan_of(ex, qs));
            &&& e.exchanges == set![ex]
            &&& e.queues == qs.to_set()
            &&& e.queues.len() == qs.len()
            &&& e.bindings == bindings_of(ex, qs).to_set()
            &&& e.bindings.len() == qs.len()
            &&& forall|t: (Seq<char>, Seq<char>, Seq<char>)| #[trigger]
                e.bindings.contains(t) ==> t.1 == ex && t.2 == routing_key_of(t.0)
        }),
{
    let ex = spec.exchange_view();
    let qs = spec.queues_view();
    let bs = bindings_of(ex, qs);
    lemma_plan_effect(empty_broker(), ex, qs);
    let e = apply_ops(empty_broker(), plan_of(ex, qs));
    assert(e.exchanges =~= set![ex]);
    assert(e.queues =~= qs.to_set());
    assert(e.bindings =~= bs.to_set());
    assert(qs.no_duplicates()) by {
        assert forall|i: int, j: int| 0 <= i < qs.len() && 0 <= j < qs.len() && i != j implies qs[i]
            != qs[j] by {
            if i < j {
                assert(!bad_queue_at(qs, j));
            } else {
                assert(!bad_queue_at(qs, i));
            }
        }
    }
    assert(bs.no_duplicates()) by {
        assert forall|i: int, j: int| 0 <= i < bs.len() && 0 <= j < bs.len() && i != j implies bs[i]
            != bs[j] by {
            assert(bs[i].0 == qs[i]);
            assert(bs[j].0 == qs[j]);
        }
    }
    qs.unique_seq_to_set();
    bs.unique_seq_to_set();
    assert forall|t: (Seq<char>, Seq<char>, Seq<char>)| #[trigger] e.bindings.contains(t) implies t.1
        == ex && t.2 == routing_key_of(t.0) by {
        let i = choose|i: int| 0 <= i < bs.len() && bs[i] == t;
        assert(bs[i] == binding_of(ex, qs[i]));
    }
}

/// Provisioning twice is provisioning once: on any broker, a second run of the
/// same operations adds nothing.
pub proof fn lemma_provision_idempotent(b: BrokerModel, spec: &TopologySpec)
    ensures
        ({
            let p = plan_of(spec.exchange_view(), spec.queues_view());
            apply_ops(apply_ops(b, p), p) == apply_ops(b, p)
        }),
{
    let ex = spec.exchange_view();
    let qs = spec.queues_view();
    lemma_plan_effect(b, ex, qs);
    let once = provisioned(b, ex, qs);
    lemma_plan_effect(once, ex, qs);
    let twice = provisioned(once, ex, qs);
    assert(twice.exchanges =~= once.exchanges);
    assert(twice.queues =~= once.queues);
    assert(twice.bindings =~= once.bindings);
}

} // verus!
