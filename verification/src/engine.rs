use vstd::prelude::*;

verus! {

/// Marker for inserting a fresh source variable into a graph.
#[derive(Copy, Clone)]
pub struct Var;

/// The raw zero-based insertion index of a node.
#[derive(Debug, Copy, Clone, Eq, PartialEq, Structural)]
pub struct Id(pub usize);

/// A value of the expression language; `Expr<Id>` is a node handle.
#[derive(Debug, Copy, Clone, Eq, PartialEq, Structural)]
pub struct Expr<T>(pub T);

/// A handle to one node of a graph, equal to its insertion index.
pub type NodeId = Expr<Id>;

impl Expr<Id> {
    /// The insertion index this handle stands for.
    pub open spec fn idx(self) -> int {
        self.0.0 as int
    }

    /// Returns the insertion index as a plain integer.
    pub fn index(self) -> (r: usize)
        ensures
            r == self.idx(),
    {
        self.0.0
    }

    /// Builds the handle for the node at the given insertion index.
    pub fn from_index(value: usize) -> (r: NodeId)
        ensures
            r.idx() == value,
    {
        Expr(Id(value))
    }
}

impl From<usize> for Expr<Id> {
    /// The handle for the node at insertion index `value`.
    fn from(value: usize) -> (r: NodeId)
        ensures
            r.idx() == value,
    {
        Expr(Id(value))
    }
}

impl vstd::std_specs::convert::FromSpecImpl<usize> for Expr<Id> {
    open spec fn obeys_from_spec() -> bool {
        true
    }

    open spec fn from_spec(value: usize) -> Self {
        Expr(Id(value))
    }
}

impl From<Expr<Id>> for usize {
    /// The insertion index a handle stands for.
    fn from(value: NodeId) -> (r: usize)
        ensures
            r == value.idx(),
    {
        value.0.0
    }
}

impl vstd::std_specs::convert::FromSpecImpl<Expr<Id>> for usize {
    open spec fn obeys_from_spec() -> bool {
        true
    }

    open spec fn from_spec(value: Expr<Id>) -> Self {
        value.0.0
    }
}

/// Operators with no operands.
#[derive(Debug, Copy, Clone, Eq, PartialEq, Structural)]
pub enum Nullary {
    Var,
}

/// Operators over one earlier node.
#[derive(Debug, Copy, Clone, Eq, PartialEq, Structural)]
pub enum Unary {
    Neg,
    Recip,
    Pow2,
    Ln,
    Ln1P,
    Exp,
    Exp2,
    ExpM1,
    TanH,
}

/// Operators over an ordered pair of earlier nodes.
#[derive(Debug, Copy, Clone, Eq, PartialEq, Structural)]
pub enum Binary {
    Add,
    Sub,
    Mul,
    Div,
    Pow,
}

/// One operation record: a source variable, or an operator applied to
/// operand nodes that were inserted earlier.
#[derive(Debug, Copy, Clone, Eq, PartialEq)]
pub enum Op {
    Nullary(Nullary),
    Unary(Unary, NodeId),
    Binary(Binary, (NodeId, NodeId)),
}

/// Every operand of `op` points strictly below `bound`. With `bound` equal to
/// a node's own index this is the topological invariant of the graph.
pub open spec fn op_wf(op: Op, bound: int) -> bool {
    match op {
        Op::Nullary(_) => true,
        Op::Unary(_, a) => 0 <= a.idx() < bound,
        Op::Binary(_, input) => 0 <= input.0.idx() < bound && 0 <= input.1.idx() < bound,
    }
}

/// An append-only computation graph: the sequence of operation records,
/// indexed by `NodeId`.
#[derive(Debug)]
pub struct Operations {
    ops: Vec<Op>,
}

impl View for Operations {
    type V = Seq<Op>;

    closed spec fn view(&self) -> Seq<Op> {
        self.ops@
    }
}

impl Operations {
    /// The topological invariant: every node's operands have strictly
    /// smaller indices than the node itself.
    pub open spec fn wf(&self) -> bool {
        forall|o: int| 0 <= o < self@.len() ==> op_wf(#[trigger] self@[o], o)
    }

    /// Creates an empty graph.
    pub fn new() -> (r: Operations)
        ensures
            r@.len() == 0,
            r.wf(),
    {
        Operations { ops: Vec::new() }
    }

    /// The number of nodes, which is also the next index to be assigned.
    pub fn len(&self) -> (r: usize)
        ensures
            r == self@.len(),
    {
        self.ops.len()
    }

    /// True on the empty graph.
    pub fn is_empty(&self) -> (r: bool)
        ensures
            r == (self@.len() == 0),
    {
        self.ops.is_empty()
    }

    /// Removes every node; all previously issued handles become invalid.
    pub fn clear(&mut self)
        ensures
            final(self)@.len() == 0,
            final(self).wf(),
    {
        self.ops.clear();
    }

    /// Returns the record stored for `node`.
    pub fn op(&self, node: NodeId) -> (r: Op)
        requires
            0 <= node.idx() < self@.len(),
        ensures
            r == self@[node.idx()],
    {
        self.ops[node.index()]
    }

    /// Appends whatever `insertable` describes and returns its handles.
    pub fn insert<I: Insertable>(&mut self, insertable: I) -> (r: I::Output)
        requires
            old(self).wf(),
            insertable.valid_for(old(self)@),
        ensures
            final(self).wf(),
            final(self)@ == insertable.ops_after(old(self)@),
            r == insertable.output_on(old(self)@),
    {
        insertable.insert_into(self)
    }

    /// Appends `op` only if its operands lie inside this graph; `None` means
    /// the record referenced a node this graph never issued.
    pub fn try_insert(&mut self, op: Op) -> (r: Option<NodeId>)
        requires
            old(self).wf(),
        ensures
            final(self).wf(),
            op_wf(op, old(self)@.len() as int) ==> {
                &&& final(self)@ == old(self)@.push(op)
                &&& r == Some(Expr(Id(old(self)@.len() as usize)))
            },
            !op_wf(op, old(self)@.len() as int) ==> {
                &&& final(self)@ == old(self)@
                &&& r == None::<NodeId>
            },
    {
        let n = self.ops.len();
        let ok = match op {
            Op::Nullary(_) => true,
            Op::Unary(_, a) => a.index() < n,
            Op::Binary(_, input) => input.0.index() < n && input.1.index() < n,
        };
        if ok {
            Some(self.insert(op))
        } else {
            None
        }
    }

    /// Appends one fresh source variable.
    pub fn var(&mut self) -> (r: NodeId)
        requires
            old(self).wf(),
        ensures
            final(self).wf(),
            final(self)@ == old(self)@.push(Op::Nullary(Nullary::Var)),
            r.idx() == old(self)@.len(),
    {
        let n = self.ops.len();
        proof {
            assert(old(self)@.len() == n);
        }
        self.insert(Var)
    }

    /// Appends `N` fresh source variables and returns their handles in
    /// insertion order.
    pub fn vars<const N: usize>(&mut self) -> (r: [NodeId; N])
        requires
            old(self).wf(),
            old(self)@.len() + N <= usize::MAX,
        ensures
            final(self).wf(),
            final(self)@.len() == old(self)@.len() + N,
            forall|o: int| 0 <= o < old(self)@.len() ==> final(self)@[o] == old(self)@[o],
            forall|o: int|
                old(self)@.len() <= o < final(self)@.len() ==> final(self)@[o] == Op::Nullary(
                    Nullary::Var,
                ),
            forall|k: int| 0 <= k < N ==> (#[trigger] r@[k]).idx() == old(self)@.len() + k,
    {
        let mut r: [NodeId; N] = [Expr(Id(0)); N];
        let mut k: usize = 0;
        while k < N
            invariant
                k <= N,
                self.wf(),
                self@.len() == old(self)@.len() + k,
                forall|o: int| 0 <= o < old(self)@.len() ==> self@[o] == old(self)@[o],
                forall|o: int|
                    old(self)@.len() <= o < self@.len() ==> self@[o] == Op::Nullary(Nullary::Var),
                forall|j: int| 0 <= j < k ==> (#[trigger] r@[j]).idx() == old(self)@.len() + j,
                old(self)@.len() + N <= usize::MAX,
            decreases N - k,
        {
            let id = self.var();
            r[k] = id;
            k = k + 1;
        }
        r
    }

    /// Appends `count` fresh source variables and returns their handles in
    /// insertion order.
    pub fn vars_vec(&mut self, count: usize) -> (r: Vec<NodeId>)
        requires
            old(self).wf(),
            old(self)@.len() + count <= usize::MAX,
        ensures
            final(self).wf(),
            final(self)@.len() == old(self)@.len() + count,
            forall|o: int| 0 <= o < old(self)@.len() ==> final(self)@[o] == old(self)@[o],
            forall|o: int|
                old(self)@.len() <= o < final(self)@.len() ==> final(self)@[o] == Op::Nullary(
                    Nullary::Var,
                ),
            r@.len() == count,
            forall|k: int| 0 <= k < count ==> (#[trigger] r@[k]).idx() == old(self)@.len() + k,
    {
        let mut r: Vec<NodeId> = Vec::new();
        let mut k: usize = 0;
        while k < count
            invariant
                k <= count,
                self.wf(),
                self@.len() == old(self)@.len() + k,
                forall|o: int| 0 <= o < old(self)@.len() ==> self@[o] == old(self)@[o],
                forall|o: int|
                    old(self)@.len() <= o < self@.len() ==> self@[o] == Op::Nullary(Nullary::Var),
                r@.len() == k,
                forall|j: int| 0 <= j < k ==> (#[trigger] r@[j]).idx() == old(self)@.len() + j,
                old(self)@.len() + count <= usize::MAX,
            decreases count - k,
        {
            let id = self.var();
            r.push(id);
            k = k + 1;
        }
        r
    }

    /// Appends every record of `collection` in order and returns their
    /// handles.
    pub fn extend(&mut self, collection: Vec<Op>) -> (r: Vec<NodeId>)
        requires
            old(self).wf(),
            forall|k: int|
                0 <= k < collection@.len() ==> op_wf(
                    #[trigger] collection@[k],
                    old(self)@.len() + k,
                ),
            old(self)@.len() + collection@.len() <= usize::MAX,
        ensures
            final(self).wf(),
            final(self)@ == old(self)@ + collection@,
            r@.len() == collection@.len(),
            forall|k: int| 0 <= k < r@.len() ==> (#[trigger] r@[k]).idx() == old(self)@.len() + k,
    {
        let n = collection.len();
        let mut r: Vec<NodeId> = Vec::new();
        let mut k: usize = 0;
        while k < n
            invariant
                self.wf(),
                k <= n,
                n == collection@.len(),
                forall|j: int|
                    0 <= j < collection@.len() ==> op_wf(
                        #[trigger] collection@[j],
                        old(self)@.len() + j,
                    ),
                old(self)@.len() + collection@.len() <= usize::MAX,
                self@ == old(self)@ + collection@.subrange(0, k as int),
                r@.len() == k,
                forall|j: int| 0 <= j < k ==> (#[trigger] r@[j]).idx() == old(self)@.len() + j,
            decreases n - k,
        {
            let op = collection[k];
            proof {
                assert(op_wf(collection@[k as int], old(self)@.len() + k as int));
                assert(self@.len() == old(self)@.len() + k);
            }
            let id = self.insert(op);
            proof {
                assert(self@ =~= old(self)@ + collection@.subrange(0, k as int + 1));
            }
            r.push(id);
            k = k + 1;
        }
        proof {
            assert(collection@.subrange(0, n as int) =~= collection@);
        }
        r
    }
}

/// Anything that can be written into a graph: a single record, a fresh
/// variable, an existing handle, or a pair of such things.
pub trait Insertable: Sized {
    type Output;

    /// When insertion into a graph with records `pre` is allowed.
    spec fn valid_for(self, pre: Seq<Op>) -> bool;

    /// The graph's records after insertion.
    spec fn ops_after(self, pre: Seq<Op>) -> Seq<Op>;

    /// The handles handed back by the insertion.
    spec fn output_on(self, pre: Seq<Op>) -> Self::Output;

    fn insert_into(self, ops: &mut Operations) -> (r: Self::Output)
        requires
            old(ops).wf(),
            self.valid_for(old(ops)@),
        ensures
            final(ops).wf(),
            final(ops)@ == self.ops_after(old(ops)@),
            r == self.output_on(old(ops)@),
    ;
}

impl Insertable for Op {
    type Output = NodeId;

    open spec fn valid_for(self, pre: Seq<Op>) -> bool {
        op_wf(self, pre.len() as int)
    }

    open spec fn ops_after(self, pre: Seq<Op>) -> Seq<Op> {
        pre.push(self)
    }

    open spec fn output_on(self, pre: Seq<Op>) -> NodeId {
        Expr(Id(pre.len() as usize))
    }

    fn insert_into(self, ops: &mut Operations) -> (r: NodeId) {
        let id = NodeId::from_index(ops.ops.len());
        ops.ops.push(self);
        id
    }
}

impl Insertable for Var {
    type Output = NodeId;

    open spec fn valid_for(self, pre: Seq<Op>) -> bool {
        true
    }

    open spec fn ops_after(self, pre: Seq<Op>) -> Seq<Op> {
        pre.push(Op::Nullary(Nullary::Var))
    }

    open spec fn output_on(self, pre: Seq<Op>) -> NodeId {
        Expr(Id(pre.len() as usize))
    }

    fn insert_into(self, ops: &mut Operations) -> (r: NodeId) {
        ops.insert(Op::Nullary(Nullary::Var))
    }
}

impl Insertable for Id {
    type Output = NodeId;

    open spec fn valid_for(self, pre: Seq<Op>) -> bool {
        self.0 < pre.len()
    }

    open spec fn ops_after(self, pre: Seq<Op>) -> Seq<Op> {
        pre
    }

    open spec fn output_on(self, pre: Seq<Op>) -> NodeId {
        Expr(self)
    }

    fn insert_into(self, ops: &mut Operations) -> (r: NodeId) {
        Expr(self)
    }
}

impl<I: Insertable> Insertable for Expr<I> {
    type Output = I::Output;

    open spec fn valid_for(self, pre: Seq<Op>) -> bool {
        self.0.valid_for(pre)
    }

    open spec fn ops_after(self, pre: Seq<Op>) -> Seq<Op> {
        self.0.ops_after(pre)
    }

    open spec fn output_on(self, pre: Seq<Op>) -> I::Output {
        self.0.output_on(pre)
    }

    fn insert_into(self, ops: &mut Operations) -> (r: I::Output) {
        self.0.insert_into(ops)
    }
}

impl<A: Insertable, B: Insertable> Insertable for (A, B) {
    type Output = (A::Output, B::Output);

    open spec fn valid_for(self, pre: Seq<Op>) -> bool {
        self.0.valid_for(pre) && self.1.valid_for(self.0.ops_after(pre))
    }

    open spec fn ops_after(self, pre: Seq<Op>) -> Seq<Op> {
        self.1.ops_after(self.0.ops_after(pre))
    }

    open spec fn output_on(self, pre: Seq<Op>) -> (A::Output, B::Output) {
        (self.0.output_on(pre), self.1.output_on(self.0.ops_after(pre)))
    }

    fn insert_into(self, ops: &mut Operations) -> (r: (A::Output, B::Output)) {
        let a = ops.insert(self.0);
        let b = ops.insert(self.1);
        (a, b)
    }
}


impl Default for Operations {
    /// An empty graph.
    fn default() -> (r: Operations)
        ensures
            r@.len() == 0,
            r.wf(),
    {
        Operations::new()
    }
}

/// A dense buffer of per-node values for a graph, indexed by `NodeId`. The
/// caller fills the source-variable slots; the forward pass fills the rest.
#[derive(Debug)]
pub struct Values<T> {
    data: Vec<T>,
}

impl<T> View for Values<T> {
    type V = Seq<T>;

    closed spec fn view(&self) -> Seq<T> {
        self.data@
    }
}

impl<T: Copy> Values<T> {
    /// Creates a buffer of `len` slots, each holding `fill`.
    ///
    /// The buffer is intended to be re-used over many forward and backward
    /// passes on one graph.
    pub fn new(len: usize, fill: T) -> (r: Values<T>)
        ensures
            r@.len() == len,
            forall|i: int| 0 <= i < len ==> r@[i] == fill,
    {
        let mut data: Vec<T> = Vec::new();
        while data.len() < len
            invariant
                data@.len() <= len,
                forall|i: int| 0 <= i < data@.len() ==> data@[i] == fill,
            decreases len - data@.len(),
        {
            data.push(fill);
        }
        Values { data }
    }

    /// Grows or shrinks the buffer to `new_len` slots; new slots hold `value`.
    pub fn resize(&mut self, new_len: usize, value: T)
        ensures
            final(self)@.len() == new_len,
            forall|i: int| 0 <= i < new_len && i < old(self)@.len() ==> final(self)@[i] == old(
                self,
            )@[i],
            forall|i: int| old(self)@.len() <= i < new_len ==> final(self)@[i] == value,
    {
        if new_len <= self.data.len() {
            self.data.truncate(new_len);
        } else {
            while self.data.len() < new_len
                invariant
                    old(self)@.len() < new_len,
                    old(self)@.len() <= self@.len() <= new_len,
                    forall|i: int| 0 <= i < old(self)@.len() ==> self@[i] == old(self)@[i],
                    forall|i: int| old(self)@.len() <= i < self@.len() ==> self@[i] == value,
                decreases new_len - self@.len(),
            {
                self.data.push(value);
            }
        }
    }

    /// Sets every slot to `value`.
    pub fn fill(&mut self, value: T)
        ensures
            final(self)@.len() == old(self)@.len(),
            forall|i: int| 0 <= i < final(self)@.len() ==> final(self)@[i] == value,
    {
        let n = self.data.len();
        let mut i: usize = 0;
        while i < n
            invariant
                n == self@.len(),
                i <= n,
                forall|k: int| 0 <= k < i ==> self@[k] == value,
            decreases n - i,
        {
            self.data.set(i, value);
            i = i + 1;
        }
    }

    /// The number of slots.
    pub fn len(&self) -> (r: usize)
        ensures
            r == self@.len(),
    {
        self.data.len()
    }

    /// True on a buffer with no slots.
    pub fn is_empty(&self) -> (r: bool)
        ensures
            r == (self@.len() == 0),
    {
        self.data.is_empty()
    }

    /// Reads the slot of `node`.
    pub fn get(&self, node: NodeId) -> (r: T)
        requires
            0 <= node.idx() < self@.len(),
        ensures
            r == self@[node.idx()],
    {
        self.data[node.index()]
    }

    /// Writes the slot of `node`.
    pub fn set(&mut self, node: NodeId, value: T)
        requires
            0 <= node.idx() < old(self)@.len(),
        ensures
            final(self)@ == old(self)@.update(node.idx(), value),
    {
        self.data.set(node.index(), value);
    }
}

/// A dense buffer of per-node gradients for a graph, indexed by `NodeId`.
/// The backward pass resets it and then accumulates contributions into it.
#[derive(Debug)]
pub struct Gradients<T> {
    data: Vec<T>,
}

impl<T> View for Gradients<T> {
    type V = Seq<T>;

    closed spec fn view(&self) -> Seq<T> {
        self.data@
    }
}

impl<T: Copy> Gradients<T> {
    /// Creates a buffer of `len` slots, each holding `fill` (normally the
    /// scalar zero).
    ///
    /// The buffer is intended to be re-used over many forward and backward
    /// passes on one graph.
    pub fn new(len: usize, fill: T) -> (r: Gradients<T>)
        ensures
            r@.len() == len,
            forall|i: int| 0 <= i < len ==> r@[i] == fill,
    {
        let mut data: Vec<T> = Vec::new();
        while data.len() < len
            invariant
                data@.len() <= len,
                forall|i: int| 0 <= i < data@.len() ==> data@[i] == fill,
            decreases len - data@.len(),
        {
            data.push(fill);
        }
        Gradients { data }
    }

    /// Sets every slot to `value`.
    pub fn fill(&mut self, value: T)
        ensures
            final(self)@.len() == old(self)@.len(),
            forall|i: int| 0 <= i < final(self)@.len() ==> final(self)@[i] == value,
    {
        let n = self.data.len();
        let mut i: usize = 0;
        while i < n
            invariant
                n == self@.len(),
                i <= n,
                forall|k: int| 0 <= k < i ==> self@[k] == value,
            decreases n - i,
        {
            self.data.set(i, value);
            i = i + 1;
        }
    }

    /// Grows or shrinks the buffer to `new_len` slots; new slots hold `value`.
    pub fn resize(&mut self, new_len: usize, value: T)
        ensures
            final(self)@.len() == new_len,
            forall|i: int| 0 <= i < new_len && i < old(self)@.len() ==> final(self)@[i] == old(
                self,
            )@[i],
            forall|i: int| old(self)@.len() <= i < new_len ==> final(self)@[i] == value,
    {
        if new_len <= self.data.len() {
            self.data.truncate(new_len);
        } else {
            while self.data.len() < new_len
                invariant
                    old(self)@.len() < new_len,
                    old(self)@.len() <= self@.len() <= new_len,
                    forall|i: int| 0 <= i < old(self)@.len() ==> self@[i] == old(self)@[i],
                    forall|i: int| old(self)@.len() <= i < self@.len() ==> self@[i] == value,
                decreases new_len - self@.len(),
            {
                self.data.push(value);
            }
        }
    }

    /// The number of slots.
    pub fn len(&self) -> (r: usize)
        ensures
            r == self@.len(),
    {
        self.data.len()
    }

    /// True on a buffer with no slots.
    pub fn is_empty(&self) -> (r: bool)
        ensures
            r == (self@.len() == 0),
    {
        self.data.is_empty()
    }

    /// Reads the slot of `node`.
    pub fn get(&self, node: NodeId) -> (r: T)
        requires
            0 <= node.idx() < self@.len(),
        ensures
            r == self@[node.idx()],
    {
        self.data[node.index()]
    }

    /// Writes the slot of `node`.
    pub fn set(&mut self, node: NodeId, value: T)
        requires
            0 <= node.idx() < old(self)@.len(),
        ensures
            final(self)@ == old(self)@.update(node.idx(), value),
    {
        self.data.set(node.index(), value);
    }

    /// Folds `rhs` into this buffer slot by slot with `add`; used to gather
    /// the gradients of a minibatch into one accumulator.
    pub fn accumulate<FA: Fn(T, T) -> T>(&mut self, rhs: &Gradients<T>, add_fn: FA)
        requires
            old(self)@.len() == rhs@.len(),
            forall|a: T, b: T| call_requires(add_fn, (a, b)),
        ensures
            final(self)@.len() == old(self)@.len(),
            forall|i: int|
                0 <= i < final(self)@.len() ==> call_ensures(
                    add_fn,
                    (old(self)@[i], rhs@[i]),
                    #[trigger] final(self)@[i],
                ),
    {
        let n = self.data.len();
        let mut i: usize = 0;
        while i < n
            invariant
                n == self@.len(),
                n == old(self)@.len(),
                n == rhs@.len(),
                i <= n,
                forall|a: T, b: T| call_requires(add_fn, (a, b)),
                forall|k: int| i <= k < n ==> self@[k] == old(self)@[k],
                forall|k: int|
                    0 <= k < i ==> call_ensures(add_fn, (old(self)@[k], rhs@[k]), #[trigger] self@[k]),
            decreases n - i,
        {
            let node = NodeId::from_index(i);
            let s = add_fn(self.get(node), rhs.get(node));
            self.set(node, s);
            i = i + 1;
        }
    }
}


/// What the forward pass guarantees for the slot of node `o`: a source
/// variable keeps its caller-supplied value, and every other node holds a
/// result that the operator's forward function can return on the (final)
/// values of its operands. Operands precede `o`, so their final values are
/// exactly the values that were read when `o` was computed.
pub open spec fn forward_slot_ok<T, FU: Fn(Unary, T) -> T, FB: Fn(Binary, T, T) -> T>(
    ops: Seq<Op>,
    pre: Seq<T>,
    post: Seq<T>,
    o: int,
    unary_fwd: FU,
    binary_fwd: FB,
) -> bool {
    match ops[o] {
        Op::Nullary(_) => post[o] == pre[o],
        Op::Unary(u, a) => call_ensures(unary_fwd, (u, post[a.idx()]), post[o]),
        Op::Binary(b, input) => call_ensures(
            binary_fwd,
            (b, post[input.0.idx()], post[input.1.idx()]),
            post[o],
        ),
    }
}

impl Operations {
    /// The forward pass: sweeps the nodes once in insertion order and writes
    /// each non-variable slot of `values` with the operator's forward result
    /// on its operands' already-computed values. Source-variable slots are
    /// left untouched; the caller must have set them beforehand.
    ///
    /// The arithmetic is supplied by the caller: `unary_fwd(u, a)` and
    /// `binary_fwd(b, a0, a1)` compute one application of the operator.
    pub fn forward<T: Copy, FU: Fn(Unary, T) -> T, FB: Fn(Binary, T, T) -> T>(
        &self,
        values: &mut Values<T>,
        unary_fwd: FU,
        binary_fwd: FB,
    )
        requires
            self.wf(),
            old(values)@.len() == self@.len(),
            forall|u: Unary, a: T| call_requires(unary_fwd, (u, a)),
            forall|b: Binary, a0: T, a1: T| call_requires(binary_fwd, (b, a0, a1)),
        ensures
            final(values)@.len() == self@.len(),
            forall|o: int|
                0 <= o < self@.len() ==> forward_slot_ok(
                    self@,
                    old(values)@,
                    final(values)@,
                    o,
                    unary_fwd,
                    binary_fwd,
                ),
    {
        let n = self.len();
        let mut o: usize = 0;
        while o < n
            invariant
                self.wf(),
                n == self@.len(),
                values@.len() == n,
                o <= n,
                forall|u: Unary, a: T| call_requires(unary_fwd, (u, a)),
                forall|b: Binary, a0: T, a1: T| call_requires(binary_fwd, (b, a0, a1)),
                forall|k: int| o <= k < n ==> values@[k] == old(values)@[k],
                forall|k: int|
                    0 <= k < o ==> forward_slot_ok(
                        self@,
                        old(values)@,
                        values@,
                        k,
                        unary_fwd,
                        binary_fwd,
                    ),
            decreases n - o,
        {
            let ghost pre_iter: Seq<T> = values@;
            let output = NodeId::from_index(o);
            match self.op(output) {
                Op::Nullary(Nullary::Var) => {
                    // Nothing to do: the caller owns this slot.
                },
                Op::Unary(unary, input) => {
                    let a = values.get(input);
                    values.set(output, unary_fwd(unary, a));
                },
                Op::Binary(binary, input) => {
                    let a0 = values.get(input.0);
                    let a1 = values.get(input.1);
                    values.set(output, binary_fwd(binary, a0, a1));
                },
            }
            proof {
                assert forall|k: int| 0 <= k < o + 1 implies forward_slot_ok(
                    self@,
                    old(values)@,
                    values@,
                    k,
                    unary_fwd,
                    binary_fwd,
                ) by {
                    assert(op_wf(self@[k], k));
                    if k < o {
                        assert(forward_slot_ok(
                            self@,
                            old(values)@,
                            pre_iter,
                            k,
                            unary_fwd,
                            binary_fwd,
                        ));
                    }
                }
            }
            o = o + 1;
        }
    }
}


/// The gradient buffer right after the reset and the seed assignment: `zero`
/// everywhere except `seed` in the slot of `target`.
pub open spec fn seed_state<T>(len: nat, target: int, seed: T, zero: T) -> Seq<T> {
    Seq::new(len, |i: int| if i == target { seed } else { zero })
}

/// One visit of node `o` in the reverse sweep, without the zero test: the
/// buffer goes from `s` to `s2` by adding into each operand's slot a
/// contribution computed from the operand values, the node's own value and
/// the node's gradient `s[o]`. A variable has no operands and changes
/// nothing. For a binary node the two additions happen in order, so a node
/// that uses the same operand twice accumulates both contributions.
pub open spec fn backward_process<
    T,
    GU: Fn(Unary, T, T, T) -> T,
    GB: Fn(Binary, T, T, T, T) -> (T, T),
    FA: Fn(T, T) -> T,
>(
    ops: Seq<Op>,
    vals: Seq<T>,
    unary_contrib: GU,
    binary_contrib: GB,
    add_fn: FA,
    o: int,
    s: Seq<T>,
    s2: Seq<T>,
) -> bool {
    match ops[o] {
        Op::Nullary(_) => s2 =~= s,
        Op::Unary(u, a) => exists|c: T, r: T|
            {
                &&& call_ensures(unary_contrib, (u, vals[a.idx()], vals[o], s[o]), c)
                &&& call_ensures(add_fn, (s[a.idx()], c), r)
                &&& s2 =~= s.update(a.idx(), r)
            },
        Op::Binary(b, input) => exists|c: (T, T), r0: T, r1: T|
            {
                &&& call_ensures(
                    binary_contrib,
                    (b, vals[input.0.idx()], vals[input.1.idx()], vals[o], s[o]),
                    c,
                )
                &&& call_ensures(add_fn, (s[input.0.idx()], c.0), r0)
                &&& call_ensures(add_fn, (s.update(input.0.idx(), r0)[input.1.idx()], c.1), r1)
                &&& s2 =~= s.update(input.0.idx(), r0).update(input.1.idx(), r1)
            },
    }
}

/// One visit of node `o`, as the reverse sweep performs it. With `skip_zero`
/// the node is left unprocessed when the zero test accepts its gradient: a
/// zero upstream gradient is meant to contribute nothing downstream.
pub open spec fn backward_step<
    T,
    GU: Fn(Unary, T, T, T) -> T,
    GB: Fn(Binary, T, T, T, T) -> (T, T),
    FA: Fn(T, T) -> T,
    FZ: Fn(T) -> bool,
>(
    ops: Seq<Op>,
    vals: Seq<T>,
    unary_contrib: GU,
    binary_contrib: GB,
    add_fn: FA,
    is_zero: FZ,
    o: int,
    s: Seq<T>,
    s2: Seq<T>,
    skip_zero: bool,
) -> bool {
    if skip_zero {
        ||| (call_ensures(is_zero, (s[o],), true) && s2 =~= s)
        ||| (call_ensures(is_zero, (s[o],), false) && backward_process(
            ops,
            vals,
            unary_contrib,
            binary_contrib,
            add_fn,
            o,
            s,
            s2,
        ))
    } else {
        backward_process(ops, vals, unary_contrib, binary_contrib, add_fn, o, s, s2)
    }
}

/// The whole reverse sweep as a sequence of buffer states: `tr[0]` is the
/// seeded reset buffer, and step `k` visits node `ops.len() - 1 - k`, so the
/// nodes are visited exactly once each, in reverse insertion order. Every
/// consumer of a node has a larger index and is therefore visited first,
/// which is why each node's gradient is complete by the time it is read.
pub open spec fn backward_trace<
    T,
    GU: Fn(Unary, T, T, T) -> T,
    GB: Fn(Binary, T, T, T, T) -> (T, T),
    FA: Fn(T, T) -> T,
    FZ: Fn(T) -> bool,
>(
    ops: Seq<Op>,
    vals: Seq<T>,
    unary_contrib: GU,
    binary_contrib: GB,
    add_fn: FA,
    is_zero: FZ,
    target: int,
    seed: T,
    zero: T,
    tr: Seq<Seq<T>>,
    skip_zero: bool,
) -> bool {
    &&& tr.len() == ops.len() + 1
    &&& tr[0] =~= seed_state(ops.len(), target, seed, zero)
    &&& forall|j: int| 0 <= j < tr.len() ==> (#[trigger] tr[j]).len() == ops.len()
    &&& forall|j: int|
        0 <= j < ops.len() ==> backward_step(
            ops,
            vals,
            unary_contrib,
            binary_contrib,
            add_fn,
            is_zero,
            ops.len() - 1 - j,
            tr[j],
            #[trigger] tr[j + 1],
            skip_zero,
        )
}

impl Operations {
    /// The backward pass: resets `gradients` to `zero`, seeds the slot of
    /// `target` with `gradient`, then sweeps the nodes once in reverse
    /// insertion order, adding into each operand's slot the contribution of
    /// the visited node. After the pass, `gradients` is the final state of a
    /// trace of `backward_step`s with the zero-skip enabled.
    ///
    /// The arithmetic is supplied by the caller:
    /// `unary_contrib(u, a, b, g)` is the contribution flowing to the operand
    /// of a unary node with operand value `a`, own value `b` and own gradient
    /// `g` (the partial derivative at `a`, `b` times `g`);
    /// `binary_contrib(op, a0, a1, c, g)` is the pair of contributions for a
    /// binary node; `add_fn` accumulates a contribution into a slot; and
    /// `is_zero` is the test behind the skip of already-zero gradients.
    pub fn backward<
        T: Copy,
        GU: Fn(Unary, T, T, T) -> T,
        GB: Fn(Binary, T, T, T, T) -> (T, T),
        FA: Fn(T, T) -> T,
        FZ: Fn(T) -> bool,
    >(
        &self,
        values: &Values<T>,
        gradients: &mut Gradients<T>,
        target: NodeId,
        gradient: T,
        zero: T,
        unary_contrib: GU,
        binary_contrib: GB,
        add_fn: FA,
        is_zero: FZ,
    )
        requires
            self.wf(),
            values@.len() == self@.len(),
            old(gradients)@.len() == self@.len(),
            0 <= target.idx() < self@.len(),
            forall|u: Unary, a: T, b: T, g: T| call_requires(unary_contrib, (u, a, b, g)),
            forall|b: Binary, a0: T, a1: T, c: T, g: T|
                call_requires(binary_contrib, (b, a0, a1, c, g)),
            forall|a: T, b: T| call_requires(add_fn, (a, b)),
            forall|g: T| call_requires(is_zero, (g,)),
        ensures
            final(gradients)@.len() == self@.len(),
            exists|tr: Seq<Seq<T>>|
                {
                    &&& #[trigger] backward_trace(
                        self@,
                        values@,
                        unary_contrib,
                        binary_contrib,
                        add_fn,
                        is_zero,
                        target.idx(),
                        gradient,
                        zero,
                        tr,
                        true,
                    )
                    &&& final(gradients)@ == tr[self@.len() as int]
                },
    {
        let n = self.len();
        gradients.fill(zero);
        gradients.set(target, gradient);
        proof {
            assert(gradients@ =~= seed_state(self@.len(), target.idx(), gradient, zero));
        }
        let ghost mut tr: Seq<Seq<T>> = seq![gradients@];
        let mut k: usize = 0;
        while k < n
            invariant
                self.wf(),
                n == self@.len(),
                values@.len() == n,
                gradients@.len() == n,
                k <= n,
                forall|u: Unary, a: T, b: T, g: T| call_requires(unary_contrib, (u, a, b, g)),
                forall|b: Binary, a0: T, a1: T, c: T, g: T|
                    call_requires(binary_contrib, (b, a0, a1, c, g)),
                forall|a: T, b: T| call_requires(add_fn, (a, b)),
                forall|g: T| call_requires(is_zero, (g,)),
                tr.len() == k + 1,
                tr[0] =~= seed_state(self@.len(), target.idx(), gradient, zero),
                forall|j: int| 0 <= j < tr.len() ==> (#[trigger] tr[j]).len() == n,
                forall|j: int|
                    0 <= j < k ==> backward_step(
                        self@,
                        values@,
                        unary_contrib,
                        binary_contrib,
                        add_fn,
                        is_zero,
                        n - 1 - j,
                        tr[j],
                        #[trigger] tr[j + 1],
                        true,
                    ),
                gradients@ == tr[k as int],
            decreases n - k,
        {
            let o = n - 1 - k;
            let output = NodeId::from_index(o);
            let ghost pre_state: Seq<T> = gradients@;
            let g_o = gradients.get(output);
            if is_zero(g_o) {
                // A zero gradient flowing in adds nothing below this node.
            } else {
                match self.op(output) {
                    Op::Nullary(Nullary::Var) => {
                        // A source variable has no operands to propagate to.
                    },
                    Op::Unary(unary, input) => {
                        let c = unary_contrib(unary, values.get(input), values.get(output), g_o);
                        let r = add_fn(gradients.get(input), c);
                        gradients.set(input, r);
                    },
                    Op::Binary(binary, input) => {
                        let c = binary_contrib(
                            binary,
                            values.get(input.0),
                            values.get(input.1),
                            values.get(output),
                            g_o,
                        );
                        let r0 = add_fn(gradients.get(input.0), c.0);
                        gradients.set(input.0, r0);
                        let r1 = add_fn(gradients.get(input.1), c.1);
                        gradients.set(input.1, r1);
                    },
                }
            }
            proof {
                assert(backward_step(
                    self@,
                    values@,
                    unary_contrib,
                    binary_contrib,
                    add_fn,
                    is_zero,
                    o as int,
                    pre_state,
                    gradients@,
                    true,
                ));
                tr = tr.push(gradients@);
            }
            k = k + 1;
        }
        proof {
            assert(backward_trace(
                self@,
                values@,
                unary_contrib,
                binary_contrib,
                add_fn,
                is_zero,
                target.idx(),
                gradient,
                zero,
                tr,
                true,
            ));
        }
    }
}


/// The unary forward function returns at most one result per input.
pub open spec fn deterministic_unary_forward<T, FU: Fn(Unary, T) -> T>(unary_fwd: FU) -> bool {
    forall|u: Unary, a: T, r1: T, r2: T|
        call_ensures(unary_fwd, (u, a), r1) && call_ensures(unary_fwd, (u, a), r2) ==> r1 == r2
}

/// The binary forward function returns at most one result per input.
pub open spec fn deterministic_binary_forward<T, FB: Fn(Binary, T, T) -> T>(
    binary_fwd: FB,
) -> bool {
    forall|b: Binary, a0: T, a1: T, r1: T, r2: T|
        call_ensures(binary_fwd, (b, a0, a1), r1) && call_ensures(binary_fwd, (b, a0, a1), r2)
            ==> r1 == r2
}

/// The unary contribution function returns at most one result per input.
pub open spec fn deterministic_unary_contrib<T, GU: Fn(Unary, T, T, T) -> T>(
    unary_contrib: GU,
) -> bool {
    forall|u: Unary, a: T, b: T, g: T, r1: T, r2: T|
        call_ensures(unary_contrib, (u, a, b, g), r1) && call_ensures(unary_contrib, (u, a, b, g), r2)
            ==> r1 == r2
}

/// The binary contribution function returns at most one result per input.
pub open spec fn deterministic_binary_contrib<T, GB: Fn(Binary, T, T, T, T) -> (T, T)>(
    binary_contrib: GB,
) -> bool {
    forall|b: Binary, a0: T, a1: T, c: T, g: T, r1: (T, T), r2: (T, T)|
        call_ensures(binary_contrib, (b, a0, a1, c, g), r1) && call_ensures(
            binary_contrib,
            (b, a0, a1, c, g),
            r2,
        ) ==> r1 == r2
}

/// The accumulation function returns at most one result per input.
pub open spec fn deterministic_add<T, FA: Fn(T, T) -> T>(add_fn: FA) -> bool {
    forall|a: T, b: T, r1: T, r2: T|
        call_ensures(add_fn, (a, b), r1) && call_ensures(add_fn, (a, b), r2) ==> r1 == r2
}

/// The zero test returns at most one answer per input.
pub open spec fn deterministic_zero_test<T, FZ: Fn(T) -> bool>(is_zero: FZ) -> bool {
    forall|g: T, r1: bool, r2: bool|
        call_ensures(is_zero, (g,), r1) && call_ensures(is_zero, (g,), r2) ==> r1 == r2
}

/// Contributions computed from a gradient that the zero test accepts change
/// nothing when accumulated: they behave as an additive identity. This is
/// what makes the zero-skip a pure optimization; it holds of ordinary
/// arithmetic whenever the local partial derivatives stay finite.
pub open spec fn zero_contributions_inert<
    T,
    GU: Fn(Unary, T, T, T) -> T,
    GB: Fn(Binary, T, T, T, T) -> (T, T),
    FA: Fn(T, T) -> T,
    FZ: Fn(T) -> bool,
>(unary_contrib: GU, binary_contrib: GB, add_fn: FA, is_zero: FZ) -> bool {
    &&& forall|g: T, u: Unary, a: T, b: T, c: T, x: T, r: T|
        #![trigger call_ensures(unary_contrib, (u, a, b, g), c), call_ensures(add_fn, (x, c), r)]
        call_ensures(is_zero, (g,), true) && call_ensures(unary_contrib, (u, a, b, g), c)
            && call_ensures(add_fn, (x, c), r) ==> r == x
    &&& forall|g: T, b: Binary, a0: T, a1: T, v: T, c: (T, T), x: T, r: T|
        #![trigger call_ensures(binary_contrib, (b, a0, a1, v, g), c), call_ensures(add_fn, (x, c.0), r)]
        call_ensures(is_zero, (g,), true) && call_ensures(binary_contrib, (b, a0, a1, v, g), c)
            && call_ensures(add_fn, (x, c.0), r) ==> r == x
    &&& forall|g: T, b: Binary, a0: T, a1: T, v: T, c: (T, T), x: T, r: T|
        #![trigger call_ensures(binary_contrib, (b, a0, a1, v, g), c), call_ensures(add_fn, (x, c.1), r)]
        call_ensures(is_zero, (g,), true) && call_ensures(binary_contrib, (b, a0, a1, v, g), c)
            && call_ensures(add_fn, (x, c.1), r) ==> r == x
}

/// The forward pass is a function of the graph and the source-variable
/// values alone. Two value buffers that satisfy the forward contract for the
/// same graph, with equal values in every source-variable slot and
/// deterministic arithmetic, are equal in every slot: residue that an
/// earlier pass may have left in non-variable slots cannot influence the
/// result. Determinism of the supplied operator functions is the one
/// hypothesis, and it holds of any pure arithmetic a caller would pass;
/// nothing can be assumed of it here because the scalar type is a
/// parameter.
pub proof fn lemma_forward_deterministic<T, FU: Fn(Unary, T) -> T, FB: Fn(Binary, T, T) -> T>(
    ops: Seq<Op>,
    pre1: Seq<T>,
    pre2: Seq<T>,
    post1: Seq<T>,
    post2: Seq<T>,
    unary_fwd: FU,
    binary_fwd: FB,
)
    requires
        forall|o: int| 0 <= o < ops.len() ==> op_wf(#[trigger] ops[o], o),
        pre1.len() == ops.len(),
        pre2.len() == ops.len(),
        post1.len() == ops.len(),
        post2.len() == ops.len(),
        forall|o: int|
            0 <= o < ops.len() ==> forward_slot_ok(ops, pre1, post1, o, unary_fwd, binary_fwd),
        forall|o: int|
            0 <= o < ops.len() ==> forward_slot_ok(ops, pre2, post2, o, unary_fwd, binary_fwd),
        deterministic_unary_forward(unary_fwd),
        deterministic_binary_forward(binary_fwd),
        forall|o: int| 0 <= o < ops.len() && (#[trigger] ops[o]) is Nullary ==> pre1[o] == pre2[o],
    ensures
        post1 == post2,
{
    lemma_forward_deterministic_upto(ops, pre1, pre2, post1, post2, unary_fwd, binary_fwd, ops.len() as int);
    assert(post1 =~= post2);
}

proof fn lemma_forward_deterministic_upto<T, FU: Fn(Unary, T) -> T, FB: Fn(Binary, T, T) -> T>(
    ops: Seq<Op>,
    pre1: Seq<T>,
    pre2: Seq<T>,
    post1: Seq<T>,
    post2: Seq<T>,
    unary_fwd: FU,
    binary_fwd: FB,
    k: int,
)
    requires
        forall|o: int| 0 <= o < ops.len() ==> op_wf(#[trigger] ops[o], o),
        pre1.len() == ops.len(),
        pre2.len() == ops.len(),
        post1.len() == ops.len(),
        post2.len() == ops.len(),
        forall|o: int|
            0 <= o < ops.len() ==> forward_slot_ok(ops, pre1, post1, o, unary_fwd, binary_fwd),
        forall|o: int|
            0 <= o < ops.len() ==> forward_slot_ok(ops, pre2, post2, o, unary_fwd, binary_fwd),
        deterministic_unary_forward(unary_fwd),
        deterministic_binary_forward(binary_fwd),
        forall|o: int| 0 <= o < ops.len() && (#[trigger] ops[o]) is Nullary ==> pre1[o] == pre2[o],
        0 <= k <= ops.len(),
    ensures
        forall|o: int| 0 <= o < k ==> post1[o] == post2[o],
    decreases k,
{
    if k > 0 {
        lemma_forward_deterministic_upto(ops, pre1, pre2, post1, post2, unary_fwd, binary_fwd, k - 1);
        let o = k - 1;
        assert(op_wf(ops[o], o));
        assert(forward_slot_ok(ops, pre1, post1, o, unary_fwd, binary_fwd));
        assert(forward_slot_ok(ops, pre2, post2, o, unary_fwd, binary_fwd));
        match ops[o] {
            Op::Nullary(_) => {
                assert(post1[o] == post2[o]);
            },
            Op::Unary(u, a) => {
                assert(post1[a.idx()] == post2[a.idx()]);
                assert(post1[o] == post2[o]);
            },
            Op::Binary(b, input) => {
                assert(post1[input.0.idx()] == post2[input.0.idx()]);
                assert(post1[input.1.idx()] == post2[input.1.idx()]);
                assert(post1[o] == post2[o]);
            },
        }
        assert forall|oo: int| 0 <= oo < k implies post1[oo] == post2[oo] by {}
    }
}


/// Two valid visits of the same node from the same buffer state end in the
/// same buffer state, given deterministic arithmetic; when only one of the
/// two sweeps is allowed to skip zero gradients, inert zero contributions
/// close the gap.
proof fn lemma_backward_step_agree<
    T,
    GU: Fn(Unary, T, T, T) -> T,
    GB: Fn(Binary, T, T, T, T) -> (T, T),
    FA: Fn(T, T) -> T,
    FZ: Fn(T) -> bool,
>(
    ops: Seq<Op>,
    vals: Seq<T>,
    unary_contrib: GU,
    binary_contrib: GB,
    add_fn: FA,
    is_zero: FZ,
    o: int,
    s: Seq<T>,
    s2a: Seq<T>,
    skip_a: bool,
    s2b: Seq<T>,
    skip_b: bool,
)
    requires
        0 <= o < ops.len(),
        op_wf(ops[o], o),
        s.len() == ops.len(),
        backward_step(ops, vals, unary_contrib, binary_contrib, add_fn, is_zero, o, s, s2a, skip_a),
        backward_step(ops, vals, unary_contrib, binary_contrib, add_fn, is_zero, o, s, s2b, skip_b),
        deterministic_unary_contrib(unary_contrib),
        deterministic_binary_contrib(binary_contrib),
        deterministic_add(add_fn),
        deterministic_zero_test(is_zero),
        skip_a != skip_b ==> zero_contributions_inert(unary_contrib, binary_contrib, add_fn, is_zero),
    ensures
        s2a == s2b,
{
    let skipped_a = skip_a && call_ensures(is_zero, (s[o],), true) && s2a =~= s;
    let skipped_b = skip_b && call_ensures(is_zero, (s[o],), true) && s2b =~= s;
    if skipped_a && skipped_b {
        assert(s2a =~= s2b);
    } else {
        lemma_backward_step_agree_mixed(
            ops, vals, unary_contrib, binary_contrib, add_fn, is_zero, o, s, s2a, skip_a, s2b, skip_b,
        );
    }
}

/// The mixed and fully processed cases of `lemma_backward_step_agree`.
proof fn lemma_backward_step_agree_mixed<
    T,
    GU: Fn(Unary, T, T, T) -> T,
    GB: Fn(Binary, T, T, T, T) -> (T, T),
    FA: Fn(T, T) -> T,
    FZ: Fn(T) -> bool,
>(
    ops: Seq<Op>,
    vals: Seq<T>,
    unary_contrib: GU,
    binary_contrib: GB,
    add_fn: FA,
    is_zero: FZ,
    o: int,
    s: Seq<T>,
    s2a: Seq<T>,
    skip_a: bool,
    s2b: Seq<T>,
    skip_b: bool,
)
    requires
        0 <= o < ops.len(),
        op_wf(ops[o], o),
        s.len() == ops.len(),
        backward_step(ops, vals, unary_contrib, binary_contrib, add_fn, is_zero, o, s, s2a, skip_a),
        backward_step(ops, vals, unary_contrib, binary_contrib, add_fn, is_zero, o, s, s2b, skip_b),
        deterministic_unary_contrib(unary_contrib),
        deterministic_binary_contrib(binary_contrib),
        deterministic_add(add_fn),
        deterministic_zero_test(is_zero),
        skip_a != skip_b ==> zero_contributions_inert(unary_contrib, binary_contrib, add_fn, is_zero),
        !(skip_a && call_ensures(is_zero, (s[o],), true) && s2a =~= s && skip_b && call_ensures(
            is_zero,
            (s[o],),
            true,
        ) && s2b =~= s),
    ensures
        s2a == s2b,
{
    let pa = backward_process(ops, vals, unary_contrib, binary_contrib, add_fn, o, s, s2a);
    let pb = backward_process(ops, vals, unary_contrib, binary_contrib, add_fn, o, s, s2b);
    if pa && pb {
        match ops[o] {
            Op::Nullary(_) => {
                assert(s2a =~= s2b);
            },
            Op::Unary(u, a) => {
                let (ca, ra) = choose|c: T, r: T|
                    {
                        &&& call_ensures(unary_contrib, (u, vals[a.idx()], vals[o], s[o]), c)
                        &&& call_ensures(add_fn, (s[a.idx()], c), r)
                        &&& s2a =~= s.update(a.idx(), r)
                    };
                let (cb, rb) = choose|c: T, r: T|
                    {
                        &&& call_ensures(unary_contrib, (u, vals[a.idx()], vals[o], s[o]), c)
                        &&& call_ensures(add_fn, (s[a.idx()], c), r)
                        &&& s2b =~= s.update(a.idx(), r)
                    };
                assert(ca == cb);
                assert(ra == rb);
                assert(s2a =~= s2b);
            },
            Op::Binary(b, input) => {
                let i0 = input.0.idx();
                let i1 = input.1.idx();
                let (ca, ra0, ra1) = choose|c: (T, T), r0: T, r1: T|
                    {
                        &&& call_ensures(binary_contrib, (b, vals[i0], vals[i1], vals[o], s[o]), c)
                        &&& call_ensures(add_fn, (s[i0], c.0), r0)
                        &&& call_ensures(add_fn, (s.update(i0, r0)[i1], c.1), r1)
                        &&& s2a =~= s.update(i0, r0).update(i1, r1)
                    };
                let (cb, rb0, rb1) = choose|c: (T, T), r0: T, r1: T|
                    {
                        &&& call_ensures(binary_contrib, (b, vals[i0], vals[i1], vals[o], s[o]), c)
                        &&& call_ensures(add_fn, (s[i0], c.0), r0)
                        &&& call_ensures(add_fn, (s.update(i0, r0)[i1], c.1), r1)
                        &&& s2b =~= s.update(i0, r0).update(i1, r1)
                    };
                assert(ca == cb);
                assert(ra0 == rb0);
                assert(ra1 == rb1);
                assert(s2a =~= s2b);
            },
        }
    } else {
        // One side skipped, the other processed: the zero test accepted the
        // gradient, so the processed side's additions were inert.
        let (sk, pr, s2sk, s2pr) = if pa {
            (s2b, s2a, s2b, s2a)
        } else {
            (s2a, s2b, s2a, s2b)
        };
        assert(call_ensures(is_zero, (s[o],), true));
        assert(s2sk =~= s);
        assert(backward_process(ops, vals, unary_contrib, binary_contrib, add_fn, o, s, s2pr));
        assert(zero_contributions_inert(unary_contrib, binary_contrib, add_fn, is_zero));
        match ops[o] {
            Op::Nullary(_) => {
                assert(s2pr =~= s);
            },
            Op::Unary(u, a) => {
                let (c, r) = choose|c: T, r: T|
                    {
                        &&& call_ensures(unary_contrib, (u, vals[a.idx()], vals[o], s[o]), c)
                        &&& call_ensures(add_fn, (s[a.idx()], c), r)
                        &&& s2pr =~= s.update(a.idx(), r)
                    };
                assert(r == s[a.idx()]);
                assert(s2pr =~= s);
            },
            Op::Binary(b, input) => {
                let i0 = input.0.idx();
                let i1 = input.1.idx();
                let (c, r0, r1) = choose|c: (T, T), r0: T, r1: T|
                    {
                        &&& call_ensures(binary_contrib, (b, vals[i0], vals[i1], vals[o], s[o]), c)
                        &&& call_ensures(add_fn, (s[i0], c.0), r0)
                        &&& call_ensures(add_fn, (s.update(i0, r0)[i1], c.1), r1)
                        &&& s2pr =~= s.update(i0, r0).update(i1, r1)
                    };
                assert(r0 == s[i0]);
                assert(s.update(i0, r0) =~= s);
                assert(r1 == s.update(i0, r0)[i1]);
                assert(s2pr =~= s);
            },
        }
        assert(s2a =~= s2b);
    }
}

/// Any two complete backward sweeps over the same graph, values, target and
/// seed end in the same gradient buffer, provided the arithmetic functions
/// are deterministic. The two sweeps may differ in whether the zero-skip is
/// enabled; in that case zero contributions must be inert. Read with both
/// skips enabled this says the backward pass depends only on its inputs and
/// never on residue in the buffer; read with one skip disabled it says the
/// zero-skip changes no computed gradient. The hypotheses are the honest
/// spec-level form of what the prose of the skip takes silently: determinism
/// holds of any pure arithmetic, and inertness is the assumption that local
/// partials are finite, which fails for instance at a division node with a
/// zero divisor.
pub proof fn lemma_backward_runs_agree<
    T,
    GU: Fn(Unary, T, T, T) -> T,
    GB: Fn(Binary, T, T, T, T) -> (T, T),
    FA: Fn(T, T) -> T,
    FZ: Fn(T) -> bool,
>(
    ops: Seq<Op>,
    vals: Seq<T>,
    unary_contrib: GU,
    binary_contrib: GB,
    add_fn: FA,
    is_zero: FZ,
    target: int,
    seed: T,
    zero: T,
    tr1: Seq<Seq<T>>,
    skip_1: bool,
    tr2: Seq<Seq<T>>,
    skip_2: bool,
)
    requires
        forall|o: int| 0 <= o < ops.len() ==> op_wf(#[trigger] ops[o], o),
        backward_trace(
            ops, vals, unary_contrib, binary_contrib, add_fn, is_zero, target, seed, zero, tr1, skip_1,
        ),
        backward_trace(
            ops, vals, unary_contrib, binary_contrib, add_fn, is_zero, target, seed, zero, tr2, skip_2,
        ),
        deterministic_unary_contrib(unary_contrib),
        deterministic_binary_contrib(binary_contrib),
        deterministic_add(add_fn),
        deterministic_zero_test(is_zero),
        skip_1 != skip_2 ==> zero_contributions_inert(unary_contrib, binary_contrib, add_fn, is_zero),
    ensures
        tr1[ops.len() as int] == tr2[ops.len() as int],
{
    lemma_backward_runs_agree_upto(
        ops, vals, unary_contrib, binary_contrib, add_fn, is_zero, target, seed, zero, tr1, skip_1, tr2, skip_2, ops.len() as int,
    );
}

proof fn lemma_backward_runs_agree_upto<
    T,
    GU: Fn(Unary, T, T, T) -> T,
    GB: Fn(Binary, T, T, T, T) -> (T, T),
    FA: Fn(T, T) -> T,
    FZ: Fn(T) -> bool,
>(
    ops: Seq<Op>,
    vals: Seq<T>,
    unary_contrib: GU,
    binary_contrib: GB,
    add_fn: FA,
    is_zero: FZ,
    target: int,
    seed: T,
    zero: T,
    tr1: Seq<Seq<T>>,
    skip_1: bool,
    tr2: Seq<Seq<T>>,
    skip_2: bool,
    k: int,
)
    requires
        forall|o: int| 0 <= o < ops.len() ==> op_wf(#[trigger] ops[o], o),
        backward_trace(
            ops, vals, unary_contrib, binary_contrib, add_fn, is_zero, target, seed, zero, tr1, skip_1,
        ),
        backward_trace(
            ops, vals, unary_contrib, binary_contrib, add_fn, is_zero, target, seed, zero, tr2, skip_2,
        ),
        deterministic_unary_contrib(unary_contrib),
        deterministic_binary_contrib(binary_contrib),
        deterministic_add(add_fn),
        deterministic_zero_test(is_zero),
        skip_1 != skip_2 ==> zero_contributions_inert(unary_contrib, binary_contrib, add_fn, is_zero),
        0 <= k <= ops.len(),
    ensures
        tr1[k] == tr2[k],
    decreases k,
{
    if k == 0 {
        assert(tr1[0] =~= tr2[0]);
    } else {
        lemma_backward_runs_agree_upto(
            ops, vals, unary_contrib, binary_contrib, add_fn, is_zero, target, seed, zero, tr1, skip_1, tr2, skip_2, k - 1,
        );
        let o = ops.len() - k;
        let j = k - 1;
        assert(backward_step(
            ops, vals, unary_contrib, binary_contrib, add_fn, is_zero, ops.len() - 1 - j, tr1[j], tr1[j + 1], skip_1,
        ));
        assert(backward_step(
            ops, vals, unary_contrib, binary_contrib, add_fn, is_zero, ops.len() - 1 - j, tr2[j], tr2[j + 1], skip_2,
        ));
        lemma_backward_step_agree(
            ops, vals, unary_contrib, binary_contrib, add_fn, is_zero, o, tr1[k - 1], tr1[k], skip_1, tr2[k], skip_2,
        );
    }
}





} // verus!
