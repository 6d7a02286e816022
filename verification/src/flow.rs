//! Structured completions of the may-throw analysis. A flow records, for each
//! way an evaluation can finish (normally, by return, by throw, or by a break
//! or continue with an optional label), the environment and the value it
//! finishes with, so that these survive catch and finally blocks.
use crate::env::{env_clone, env_entries, join_env, join_env_view, Env};
use crate::set::Types;
use crate::text::{chars_of, str_eq, string_of};
use crate::error::{builtin_view, unknown_view, ErrorTypeView, EscErrorType};
use crate::value::{bottom_view, join_view, Value, ValueView};
use vstd::prelude::*;

verus! {

broadcast use vstd::seq_lib::group_seq_properties;

/// How an evaluation finished.
#[derive(Debug)]
pub enum Completion {
    Normal,
    Return,
    Throw,
    Break(Option<String>),
    Continue(Option<String>),
}

/// The mathematical value of a completion.
pub enum CompletionView {
    Normal,
    Return,
    Throw,
    Break(Option<Seq<char>>),
    Continue(Option<Seq<char>>),
}

/// The characters of an optional label.
pub open spec fn label_view(label: Option<String>) -> Option<Seq<char>> {
    match label {
        Some(s) => Some(s@),
        None => None,
    }
}

impl View for Completion {
    type V = CompletionView;

    open spec fn view(&self) -> CompletionView {
        match self {
            Completion::Normal => CompletionView::Normal,
            Completion::Return => CompletionView::Return,
            Completion::Throw => CompletionView::Throw,
            Completion::Break(label) => CompletionView::Break(label_view(*label)),
            Completion::Continue(label) => CompletionView::Continue(label_view(*label)),
        }
    }
}

fn same_label(a: &Option<String>, b: &Option<String>) -> (r: bool)
    ensures
        r == (label_view(*a) == label_view(*b)),
{
    match (a, b) {
        (None, None) => true,
        (Some(x), Some(y)) => str_eq(x.as_str(), y.as_str()),
        _ => false,
    }
}

fn copy_label(a: &Option<String>) -> (r: Option<String>)
    ensures
        label_view(r) == label_view(*a),
{
    match a {
        None => None,
        Some(x) => Some(x.clone()),
    }
}

impl Completion {
    /// Whether two completions are the same.
    pub fn same(&self, other: &Self) -> (r: bool)
        ensures
            r == (self@ == other@),
    {
        match (self, other) {
            (Completion::Normal, Completion::Normal) => true,
            (Completion::Return, Completion::Return) => true,
            (Completion::Throw, Completion::Throw) => true,
            (Completion::Break(a), Completion::Break(b)) => same_label(a, b),
            (Completion::Continue(a), Completion::Continue(b)) => same_label(a, b),
            _ => false,
        }
    }

    /// A copy with the same view.
    pub fn duplicate(&self) -> (r: Self)
        ensures
            r@ == self@,
    {
        match self {
            Completion::Normal => Completion::Normal,
            Completion::Return => Completion::Return,
            Completion::Throw => Completion::Throw,
            Completion::Break(a) => Completion::Break(copy_label(a)),
            Completion::Continue(a) => Completion::Continue(copy_label(a)),
        }
    }
}

impl Clone for Completion {
    fn clone(&self) -> (r: Self)
        ensures
            r@ == self@,
    {
        self.duplicate()
    }
}

impl PartialEq for Completion {
    fn eq(&self, other: &Self) -> (r: bool) {
        self.same(other)
    }
}

impl vstd::std_specs::cmp::PartialEqSpecImpl for Completion {
    open spec fn obeys_eq_spec() -> bool {
        true
    }

    open spec fn eq_spec(&self, other: &Self) -> bool {
        self@ == other@
    }
}

impl Eq for Completion {

}

/// The environment and value an evaluation finished with.
#[derive(Debug)]
pub struct State {
    pub env: Env,
    pub value: Value,
}

/// The mathematical value of a state.
#[verifier::ext_equal]
pub struct StateView {
    pub env: Map<u32, ValueView>,
    pub value: ValueView,
}

impl View for State {
    type V = StateView;

    open spec fn view(&self) -> StateView {
        StateView { env: env_entries(self.env), value: self.value@ }
    }
}

/// The join of two states: the join of their environments and of their values.
pub open spec fn join_state_view(a: StateView, b: StateView) -> StateView {
    StateView { env: join_env_view(a.env, b.env), value: join_view(a.value, b.value) }
}

impl State {
    /// Widens this state by `other`.
    pub fn join(&mut self, other: State)
        ensures
            final(self)@ == join_state_view(old(self)@, other@),
    {
        join_env(&mut self.env, other.env);
        self.value.join(other.value);
    }

    /// A copy with the same view.
    pub fn duplicate(&self) -> (r: Self)
        ensures
            r@ == self@,
    {
        State { env: env_clone(&self.env), value: self.value.duplicate() }
    }
}

/// The completions of a sequence of entries, each with the state of its last
/// entry.
pub open spec fn flow_map(s: Seq<(Completion, State)>) -> Map<CompletionView, StateView>
    decreases s.len(),
{
    if s.len() == 0 {
        Map::empty()
    } else {
        flow_map(s.drop_last()).insert(s.last().0@, s.last().1@)
    }
}

/// Whether no completion occurs twice.
pub open spec fn unique_completions(s: Seq<(Completion, State)>) -> bool {
    forall|i: int, j: int| 0 <= i < j < s.len() ==> s[i].0@ != s[j].0@
}

/// Adding a state: joined with the state already recorded for its completion.
pub open spec fn flow_add_view(
    m: Map<CompletionView, StateView>,
    kind: CompletionView,
    state: StateView,
) -> Map<CompletionView, StateView> {
    if m.contains_key(kind) {
        m.insert(kind, join_state_view(m[kind], state))
    } else {
        m.insert(kind, state)
    }
}

/// The join of two flows: every completion of either, with the states of a
/// completion of both joined.
pub open spec fn flow_join_view(a: Map<CompletionView, StateView>, b: Map<CompletionView, StateView>) -> Map<
    CompletionView,
    StateView,
> {
    Map::new(
        |c: CompletionView| a.contains_key(c) || b.contains_key(c),
        |c: CompletionView|
            if a.contains_key(c) && b.contains_key(c) {
                join_state_view(a[c], b[c])
            } else if a.contains_key(c) {
                a[c]
            } else {
                b[c]
            },
    )
}

pub(crate) proof fn lemma_flow_map_dom(s: Seq<(Completion, State)>, c: CompletionView)
    ensures
        flow_map(s).contains_key(c) <==> exists|i: int| 0 <= i < s.len() && s[i].0@ == c,
    decreases s.len(),
{
    if s.len() > 0 {
        lemma_flow_map_dom(s.drop_last(), c);
        if flow_map(s).contains_key(c) && s.last().0@ != c {
            let i = choose|i: int| 0 <= i < s.drop_last().len() && s.drop_last()[i].0@ == c;
            assert(s[i].0@ == c);
        }
        if exists|i: int| 0 <= i < s.len() && s[i].0@ == c {
            let i = choose|i: int| 0 <= i < s.len() && s[i].0@ == c;
            if i < s.len() - 1 {
                assert(s.drop_last()[i].0@ == c);
            }
        }
    }
}

pub(crate) proof fn lemma_flow_map_index(s: Seq<(Completion, State)>, i: int)
    requires
        unique_completions(s),
        0 <= i < s.len(),
    ensures
        flow_map(s).contains_key(s[i].0@),
        flow_map(s)[s[i].0@] == s[i].1@,
    decreases s.len(),
{
    if i < s.len() - 1 {
        lemma_flow_map_index(s.drop_last(), i);
        assert(s.drop_last()[i] == s[i]);
    }
}

proof fn lemma_flow_map_remove(s: Seq<(Completion, State)>, i: int)
    requires
        unique_completions(s),
        0 <= i < s.len(),
    ensures
        unique_completions(s.remove(i)),
        flow_map(s.remove(i)) == flow_map(s).remove(s[i].0@),
    decreases s.len(),
{
    let t = s.remove(i);
    assert forall|c: CompletionView| #![auto] flow_map(t).contains_key(c) == flow_map(s).remove(
        s[i].0@,
    ).contains_key(c) by {
        lemma_flow_map_dom(t, c);
        lemma_flow_map_dom(s, c);
        if flow_map(s).contains_key(c) && c != s[i].0@ {
            let j = choose|j: int| 0 <= j < s.len() && s[j].0@ == c;
            if j < i {
                assert(t[j] == s[j]);
            } else {
                assert(t[j - 1] == s[j]);
            }
        }
        if flow_map(t).contains_key(c) {
            let j = choose|j: int| 0 <= j < t.len() && t[j].0@ == c;
            if j < i {
                assert(t[j] == s[j]);
            } else {
                assert(t[j] == s[j + 1]);
            }
        }
    }
    assert forall|c: CompletionView| #![auto] flow_map(t).contains_key(c) implies flow_map(t)[c]
        == flow_map(s)[c] by {
        lemma_flow_map_dom(t, c);
        let j = choose|j: int| 0 <= j < t.len() && t[j].0@ == c;
        lemma_flow_map_index(t, j);
        if j < i {
            assert(t[j] == s[j]);
            lemma_flow_map_index(s, j);
        } else {
            assert(t[j] == s[j + 1]);
            lemma_flow_map_index(s, j + 1);
        }
    }
    assert(flow_map(t) =~= flow_map(s).remove(s[i].0@));
}

proof fn lemma_flow_map_push(s: Seq<(Completion, State)>, e: (Completion, State))
    requires
        unique_completions(s),
        !flow_map(s).contains_key(e.0@),
    ensures
        unique_completions(s.push(e)),
        flow_map(s.push(e)) == flow_map(s).insert(e.0@, e.1@),
{
    assert(s.push(e).drop_last() =~= s);
    assert forall|i: int| 0 <= i < s.len() implies s[i].0@ != e.0@ by {
        lemma_flow_map_index(s, i);
    }
}

/// The ways an evaluation can finish, each with its state.
#[derive(Debug)]
pub struct Flow {
    entries: Vec<(Completion, State)>,
}

impl View for Flow {
    type V = Map<CompletionView, StateView>;

    closed spec fn view(&self) -> Map<CompletionView, StateView> {
        flow_map(self.entries@)
    }
}

impl Flow {
    #[verifier::type_invariant]
    spec fn inv(self) -> bool {
        unique_completions(self.entries@)
    }

    /// A flow without any completion: evaluation does not finish.
    pub fn empty() -> (r: Self)
        ensures
            r@ == Map::<CompletionView, StateView>::empty(),
    {
        Flow { entries: Vec::new() }
    }

    /// A flow with one completion.
    pub fn one(kind: Completion, env: Env, value: Value) -> (r: Self)
        ensures
            r@ == Map::<CompletionView, StateView>::empty().insert(
                kind@,
                StateView { env: env_entries(env), value: value@ },
            ),
    {
        let ghost kv = kind@;
        let ghost sv = StateView { env: env_entries(env), value: value@ };
        let mut entries: Vec<(Completion, State)> = Vec::new();
        entries.push((kind, State { env, value }));
        proof {
            assert(entries@.drop_last() =~= Seq::<(Completion, State)>::empty());
            assert(flow_map(entries@.drop_last()) == Map::<CompletionView, StateView>::empty());
            assert(entries@.last().0@ == kv);
            assert(entries@.last().1@ == sv);
        }
        Flow { entries }
    }

    /// A flow that finishes normally.
    pub fn normal(env: Env, value: Value) -> (r: Self)
        ensures
            r@ == Map::<CompletionView, StateView>::empty().insert(
                CompletionView::Normal,
                StateView { env: env_entries(env), value: value@ },
            ),
    {
        Flow::one(Completion::Normal, env, value)
    }

    /// Whether the flow has no completion.
    pub fn is_empty(&self) -> (r: bool)
        ensures
            r == (self@ == Map::<CompletionView, StateView>::empty()),
    {
        proof {
            use_type_invariant(self);
            if self.entries@.len() > 0 {
                lemma_flow_map_index(self.entries@, 0);
            }
        }
        self.entries.len() == 0
    }

    /// Whether the flow has the completion `kind`.
    pub fn contains(&self, kind: &Completion) -> (r: bool)
        ensures
            r == self@.contains_key(kind@),
    {
        proof {
            use_type_invariant(self);
        }
        find(&self.entries, kind).is_some()
    }

    /// Records `state` for `kind`, joined with any state already recorded.
    pub fn add(&mut self, kind: Completion, state: State)
        ensures
            final(self)@ == flow_add_view(old(self)@, kind@, state@),
    {
        proof {
            use_type_invariant(&*self);
        }
        let mut entries: Vec<(Completion, State)> = Vec::new();
        std::mem::swap(&mut entries, &mut self.entries);
        let ghost before = entries@;
        match find(&entries, &kind) {
            Some(i) => {
                let (existing, mut current) = entries.remove(i);
                proof {
                    lemma_flow_map_index(before, i as int);
                    lemma_flow_map_remove(before, i as int);
                }
                current.join(state);
                proof {
                    lemma_flow_map_push(entries@, (existing, current));
                    assert(flow_map(entries@.push((existing, current))) =~= flow_add_view(
                        flow_map(before),
                        kind@,
                        state@,
                    ));
                }
                entries.push((existing, current));
            },
            None => {
                proof {
                    lemma_flow_map_push(entries@, (kind, state));
                }
                entries.push((kind, state));
            },
        }
        self.entries = entries;
    }

    /// Removes and returns the state of `kind`.
    pub fn take(&mut self, kind: &Completion) -> (r: Option<State>)
        ensures
            r is Some <==> old(self)@.contains_key(kind@),
            r matches Some(s) ==> s@ == old(self)@[kind@],
            final(self)@ == old(self)@.remove(kind@),
    {
        proof {
            use_type_invariant(&*self);
        }
        let mut entries: Vec<(Completion, State)> = Vec::new();
        std::mem::swap(&mut entries, &mut self.entries);
        let ghost before = entries@;
        match find(&entries, kind) {
            Some(i) => {
                let (_, state) = entries.remove(i);
                proof {
                    lemma_flow_map_index(before, i as int);
                    lemma_flow_map_remove(before, i as int);
                }
                self.entries = entries;
                Some(state)
            },
            None => {
                assert(flow_map(before).remove(kind@) =~= flow_map(before));
                self.entries = entries;
                None
            },
        }
    }

    /// Widens this flow by every completion of `other`.
    pub fn join(&mut self, other: Self)
        ensures
            final(self)@ == flow_join_view(old(self)@, other@),
    {
        proof {
            use_type_invariant(&*self);
            use_type_invariant(&other);
        }
        let ghost a = self@;
        let ghost b = other@;
        if self.entries.len() == 0 {
            assert(flow_join_view(a, b) =~= b);
            *self = other;
            return ;
        }
        let Flow { entries: incoming } = other;
        let mut rest = incoming;
        let ghost all = rest@;
        let ghost mut taken: Seq<(Completion, State)> = Seq::empty();
        assert(flow_join_view(a, flow_map(taken)) =~= a);
        assert(all =~= taken + rest@);
        while rest.len() > 0
            invariant
                unique_completions(all),
                all == taken + rest@,
                b == flow_map(all),
                self@ == flow_join_view(a, flow_map(taken)),
            decreases rest@.len(),
        {
            let (kind, state) = rest.remove(0);
            let ghost kv = kind@;
            let ghost sv = state@;
            let ghost entry = (kind, state);
            proof {
                assert(all[taken.len() as int] == entry);
                assert(!flow_map(taken).contains_key(kv)) by {
                    lemma_flow_map_dom(taken, kv);
                    if flow_map(taken).contains_key(kv) {
                        let j = choose|j: int| 0 <= j < taken.len() && taken[j].0@ == kv;
                        assert(all[j] == taken[j]);
                    }
                }
                assert(unique_completions(taken)) by {
                    assert forall|i: int, j: int| 0 <= i < j < taken.len() implies taken[i].0@
                        != taken[j].0@ by {
                        assert(all[i] == taken[i]);
                        assert(all[j] == taken[j]);
                    }
                }
                lemma_flow_map_push(taken, entry);
            }
            self.add(kind, state);
            proof {
                assert(self@ =~= flow_join_view(a, flow_map(taken).insert(kv, sv)));
                taken = taken.push(entry);
                assert(all =~= taken + rest@);
            }
        }
        assert(taken =~= all);
    }
}

impl Flow {
    /// Continues a normal completion with `next`; the other completions are
    /// kept and joined with what `next` gives.
    pub fn then<F: FnOnce(State) -> Flow>(self, next: F) -> (r: Flow)
        requires
            forall|s: State| s@ == self@[CompletionView::Normal] ==> call_requires(next, (s,)),
        ensures
            !self@.contains_key(CompletionView::Normal) ==> r@ == self@,
            self@.contains_key(CompletionView::Normal) ==> exists|s: State, out: Flow|
                #![trigger call_ensures(next, (s,), out)]
                s@ == self@[CompletionView::Normal] && call_ensures(next, (s,), out) && r@
                    == flow_join_view(self@.remove(CompletionView::Normal), out@),
    {
        let ghost start = self@;
        let mut flow = self;
        match flow.take(&Completion::Normal) {
            Some(state) => {
                if flow.is_empty() {
                    let out = next(state);
                    assert(flow_join_view(flow@, out@) =~= out@);
                    return out;
                }
                let out = next(state);
                flow.join(out);
                flow
            },
            None => flow,
        }
    }

    /// Replaces the value of a normal completion.
    pub fn value(self, value: Value) -> (r: Flow)
        ensures
            !self@.contains_key(CompletionView::Normal) ==> r@ == self@,
            self@.contains_key(CompletionView::Normal) ==> r@ == self@.insert(
                CompletionView::Normal,
                StateView { env: self@[CompletionView::Normal].env, value: value@ },
            ),
    {
        let ghost start = self@;
        let mut flow = self;
        match flow.take(&Completion::Normal) {
            Some(state) => {
                flow.add(Completion::Normal, State { env: state.env, value });
                assert(flow@ =~= start.insert(
                    CompletionView::Normal,
                    StateView { env: start[CompletionView::Normal].env, value: value@ },
                ));
                flow
            },
            None => flow,
        }
    }

    /// Adds a possible throw of `types` in `env`, unless `types` is empty.
    pub fn possible_throw(self, env: &Env, types: Types) -> (r: Flow)
        ensures
            types@.is_empty() ==> r@ == self@,
            !types@.is_empty() ==> r@ == flow_add_view(
                self@,
                CompletionView::Throw,
                StateView {
                    env: env_entries(*env),
                    value: crate::value::ValueView {
                        types: types@,
                        nonglobal: true,
                        truth: 3,
                        ..crate::value::bottom_view()
                    },
                },
            ),
    {
        let mut flow = self;
        if !types.is_empty() {
            flow.add(Completion::Throw, State { env: env_clone(env), value: Value::of_types(types) });
        }
        flow
    }

    /// Whether two flows have the same completions with the same states.
    pub fn same(&self, other: &Self) -> (r: bool)
        ensures
            r == (self@ == other@),
    {
        proof {
            use_type_invariant(self);
            use_type_invariant(other);
        }
        if self.entries.len() != other.entries.len() {
            proof {
                lemma_flow_map_len(self.entries@);
                lemma_flow_map_len(other.entries@);
            }
            return false;
        }
        let mut i: usize = 0;
        while i < self.entries.len()
            invariant
                unique_completions(self.entries@),
                unique_completions(other.entries@),
                self.entries@.len() == other.entries@.len(),
                0 <= i <= self.entries@.len(),
                forall|j: int|
                    0 <= j < i ==> other@.contains_key(#[trigger] self.entries@[j].0@) && other@[self.entries@[j].0@]
                        == self.entries@[j].1@,
            decreases self.entries@.len() - i,
        {
            let entry = &self.entries[i];
            match find(&other.entries, &entry.0) {
                Some(k) => {
                    proof {
                        lemma_flow_map_index(other.entries@, k as int);
                    }
                    if !state_same(&other.entries[k].1, &entry.1) {
                        proof {
                            lemma_flow_map_index(self.entries@, i as int);
                        }
                        return false;
                    }
                },
                None => {
                    proof {
                        lemma_flow_map_index(self.entries@, i as int);
                    }
                    return false;
                },
            }
            i = i + 1;
        }
        proof {
            lemma_flow_map_len(self.entries@);
            lemma_flow_map_len(other.entries@);
            assert forall|c: CompletionView| #[trigger] self@.contains_key(c) implies other@.contains_key(c)
                && other@[c] == self@[c] by {
                lemma_flow_map_dom(self.entries@, c);
                let j = choose|j: int| 0 <= j < self.entries@.len() && self.entries@[j].0@ == c;
                lemma_flow_map_index(self.entries@, j);
            }
            lemma_map_subset_same_len(self@, other@);
        }
        true
    }
}

/// Whether two states have the same view. Environments are compared by their
/// bindings.
fn state_same(a: &State, b: &State) -> (r: bool)
    ensures
        r == (a@ == b@),
{
    let r = crate::env::env_same(&a.env, &b.env) && a.value.same(&b.value);
    proof {
        if r {
            assert(a@ =~= b@);
        }
    }
    r
}

proof fn lemma_flow_map_len(s: Seq<(Completion, State)>)
    requires
        unique_completions(s),
    ensures
        flow_map(s).dom().finite(),
        flow_map(s).dom().len() == s.len(),
    decreases s.len(),
{
    if s.len() > 0 {
        let t = s.drop_last();
        assert(unique_completions(t));
        lemma_flow_map_len(t);
        assert(!flow_map(t).contains_key(s.last().0@)) by {
            lemma_flow_map_dom(t, s.last().0@);
        }
    }
}

proof fn lemma_map_subset_same_len(a: Map<CompletionView, StateView>, b: Map<CompletionView, StateView>)
    requires
        a.dom().finite(),
        b.dom().finite(),
        a.dom().len() == b.dom().len(),
        forall|c: CompletionView| #[trigger] a.contains_key(c) ==> b.contains_key(c) && b[c] == a[c],
    ensures
        a == b,
{
    assert forall|c: CompletionView| a.dom().contains(c) implies b.dom().contains(c) by {
        assert(a.contains_key(c));
    }
    if !b.dom().subset_of(a.dom()) {
        let e = choose|e: CompletionView| b.dom().contains(e) && !a.dom().contains(e);
        a.dom().lemma_subset_not_in_lt(b.dom(), e);
    }
    assert(a.dom() =~= b.dom());
    assert(a =~= b);
}

/// The join of two flows does not depend on their order.
pub proof fn law_flow_join_commutative(a: Map<CompletionView, StateView>, b: Map<CompletionView, StateView>)
    ensures
        flow_join_view(a, b) == flow_join_view(b, a),
{
    assert forall|c: CompletionView| #![auto] flow_join_view(a, b).contains_key(c) implies flow_join_view(a, b)[c] == flow_join_view(b, a)[c] by {
        if a.contains_key(c) && b.contains_key(c) {
            crate::env::law_join_env_commutative(a[c].env, b[c].env);
            crate::value::law_join_commutative(a[c].value, b[c].value);
            assert(join_state_view(a[c], b[c]) =~= join_state_view(b[c], a[c]));
        }
    }
    assert(flow_join_view(a, b) =~= flow_join_view(b, a));
}

/// Joining flows is associative.
pub proof fn law_flow_join_associative(
    a: Map<CompletionView, StateView>,
    b: Map<CompletionView, StateView>,
    c: Map<CompletionView, StateView>,
)
    ensures
        flow_join_view(flow_join_view(a, b), c) == flow_join_view(a, flow_join_view(b, c)),
{
    let l = flow_join_view(flow_join_view(a, b), c);
    let r = flow_join_view(a, flow_join_view(b, c));
    assert forall|k: CompletionView| #![auto] l.contains_key(k) implies l[k] == r[k] by {
        if a.contains_key(k) && b.contains_key(k) && c.contains_key(k) {
            crate::env::law_join_env_associative(a[k].env, b[k].env, c[k].env);
            crate::value::law_join_associative(a[k].value, b[k].value, c[k].value);
            assert(join_state_view(join_state_view(a[k], b[k]), c[k]) =~= join_state_view(a[k], join_state_view(b[k], c[k])));
        }
    }
    assert(l =~= r);
}

/// The position of the entry for `kind`, if any.
fn find(entries: &Vec<(Completion, State)>, kind: &Completion) -> (r: Option<usize>)
    requires
        unique_completions(entries@),
    ensures
        r is Some <==> flow_map(entries@).contains_key(kind@),
        r matches Some(i) ==> i < entries@.len() && entries@[i as int].0@ == kind@,
{
    let mut i: usize = 0;
    while i < entries.len()
        invariant
            0 <= i <= entries@.len(),
            forall|j: int| 0 <= j < i ==> entries@[j].0@ != kind@,
        decreases entries@.len() - i,
    {
        if entries[i].0.same(kind) {
            proof {
                lemma_flow_map_dom(entries@, kind@);
            }
            return Some(i);
        }
        i = i + 1;
    }
    proof {
        lemma_flow_map_dom(entries@, kind@);
    }
    None
}

/// What is known of a function once its body has been analysed: the errors
/// it may throw, the value it may return, and whether it may complete at all.
#[derive(Debug)]
pub struct Summary {
    pub errors: Types,
    pub returned: Value,
    pub completes: bool,
}

/// The mathematical value of a summary.
#[verifier::ext_equal]
pub struct SummaryView {
    pub errors: Set<ErrorTypeView>,
    pub returned: ValueView,
    pub completes: bool,
}

impl View for Summary {
    type V = SummaryView;

    open spec fn view(&self) -> SummaryView {
        SummaryView { errors: self.errors@, returned: self.returned@, completes: self.completes }
    }
}

/// The join of two summaries.
pub open spec fn join_summary_view(a: SummaryView, b: SummaryView) -> SummaryView {
    SummaryView {
        errors: a.errors.union(b.errors),
        returned: join_view(a.returned, b.returned),
        completes: a.completes || b.completes,
    }
}

/// The view of `undefined`.
pub open spec fn undefined_view() -> ValueView {
    ValueView { types: Set::empty().insert(builtin_view("undefined"@)), nonglobal: true, truth: 1, ..bottom_view() }
}

/// What an async function's completion value becomes once settled: its
/// deferred errors are no longer part of it, and a promise among its types is
/// replaced by what awaiting the value yields.
pub open spec fn settle_view(v: ValueView) -> ValueView {
    if v.types.contains(builtin_view("Promise"@)) {
        ValueView {
            types: v.types.remove(builtin_view("Promise"@)).union(v.awaited),
            deferred: Set::empty(),
            awaited: Set::empty(),
            ..v
        }
    } else {
        ValueView { deferred: Set::empty(), ..v }
    }
}

/// The value a function completing with `kind` returns: `undefined` when it
/// falls off its end, settled if the function is async.
pub open spec fn completion_value(kind: CompletionView, s: StateView, is_async: bool) -> ValueView {
    let base = if kind == CompletionView::Normal {
        undefined_view()
    } else {
        s.value
    };
    if is_async {
        settle_view(base)
    } else {
        base
    }
}

/// The errors a function completing with `kind` contributes: a throw its
/// thrown types; a break or continue that escapes the body `unknown`; a
/// completion of an async function its deferred errors, and `unknown` when
/// the settled value may be anything.
pub open spec fn completion_errors(kind: CompletionView, s: StateView, is_async: bool) -> Set<ErrorTypeView> {
    match kind {
        CompletionView::Throw => s.value.types,
        CompletionView::Normal | CompletionView::Return => {
            if is_async {
                let base = if kind == CompletionView::Normal {
                    undefined_view()
                } else {
                    s.value
                };
                base.deferred.union(
                    if settle_view(base).types.contains(unknown_view()) {
                        Set::empty().insert(unknown_view())
                    } else {
                        Set::empty()
                    },
                )
            } else {
                Set::empty()
            }
        },
        _ => Set::empty().insert(unknown_view()),
    }
}

/// The summary of a function whose body finishes with the completions `m`.
pub open spec fn flow_summary_view(m: Map<CompletionView, StateView>, is_async: bool) -> SummaryView {
    SummaryView {
        errors: Set::new(
            |t: ErrorTypeView|
                exists|c: CompletionView|
                    m.contains_key(c) && #[trigger] completion_errors(c, m[c], is_async).contains(t),
        ),
        returned: join_view(
            if m.contains_key(CompletionView::Normal) {
                completion_value(CompletionView::Normal, m[CompletionView::Normal], is_async)
            } else {
                bottom_view()
            },
            if m.contains_key(CompletionView::Return) {
                completion_value(CompletionView::Return, m[CompletionView::Return], is_async)
            } else {
                bottom_view()
            },
        ),
        completes: m.contains_key(CompletionView::Normal) || m.contains_key(CompletionView::Return),
    }
}

impl Summary {
    /// The summary of a function that neither throws nor completes.
    pub fn new() -> (r: Self)
        ensures
            r@ == (SummaryView { errors: Set::empty(), returned: bottom_view(), completes: false }),
    {
        Summary { errors: Types::new(), returned: Value::bottom(), completes: false }
    }

    /// Widens this summary by `other`.
    pub fn join(&mut self, other: Self)
        ensures
            final(self)@ == join_summary_view(old(self)@, other@),
    {
        self.errors.join(other.errors);
        self.returned.join(other.returned);
        self.completes = self.completes || other.completes;
    }

    /// Whether two summaries have the same view.
    pub fn same(&self, other: &Self) -> (r: bool)
        ensures
            r == (self@ == other@),
    {
        let r = self.errors.same(&other.errors) && self.returned.same(&other.returned)
            && self.completes == other.completes;
        proof {
            if r {
                assert(self@ =~= other@);
            }
        }
        r
    }

    /// A copy with the same view.
    pub fn duplicate(&self) -> (r: Self)
        ensures
            r@ == self@,
    {
        Summary {
            errors: self.errors.duplicate(),
            returned: self.returned.duplicate(),
            completes: self.completes,
        }
    }

    /// The summary of a function whose body finishes with `flow`.
    pub fn of_flow(flow: Flow, is_async: bool) -> (r: Self)
        ensures
            r@ == flow_summary_view(flow@, is_async),
    {
        proof {
            use_type_invariant(&flow);
        }
        let Flow { entries } = flow;
        let mut rest = entries;
        let ghost all = rest@;
        let ghost mut taken: Seq<(Completion, State)> = Seq::empty();
        let mut summary = Summary::new();
        proof {
            assert(all =~= taken + rest@);
            lemma_summary_empty(is_async);
        }
        while rest.len() > 0
            invariant
                unique_completions(all),
                all == taken + rest@,
                summary@ == flow_summary_view(flow_map(taken), is_async),
            decreases rest@.len(),
        {
            let (kind, state) = rest.remove(0);
            let ghost entry = (kind, state);
            let ghost m = flow_map(taken);
            let ghost before = summary@;
            proof {
                assert(all[taken.len() as int] == entry);
                assert(!m.contains_key(kind@)) by {
                    lemma_flow_map_dom(taken, kind@);
                    if m.contains_key(kind@) {
                        let j = choose|j: int| 0 <= j < taken.len() && taken[j].0@ == kind@;
                        assert(all[j] == taken[j]);
                    }
                }
                assert(unique_completions(taken)) by {
                    assert forall|i: int, j: int| 0 <= i < j < taken.len() implies taken[i].0@
                        != taken[j].0@ by {
                        assert(all[i] == taken[i]);
                        assert(all[j] == taken[j]);
                    }
                }
                lemma_flow_map_push(taken, entry);
                lemma_summary_insert(m, kind@, state@, is_async);
            }
            let ghost kv = kind@;
            let ghost sv = state@;
            match kind {
                Completion::Throw => {
                    summary.errors.join(state.value.types);
                },
                Completion::Normal | Completion::Return => {
                    summary.completes = true;
                    let mut value = match kind {
                        Completion::Normal => Value::undefined(),
                        _ => state.value,
                    };
                    assert(value@ == (if kv == CompletionView::Normal {
                        undefined_view()
                    } else {
                        sv.value
                    }));
                    if is_async {
                        let mut deferred = Types::new();
                        std::mem::swap(&mut deferred, &mut value.deferred);
                        summary.errors.join(deferred);
                        if value.types.remove(&EscErrorType::builtin("Promise")) {
                            let mut awaited = Types::new();
                            std::mem::swap(&mut awaited, &mut value.awaited);
                            value.types.join(awaited);
                        }
                        if value.types.contains(&EscErrorType::unknown()) {
                            summary.errors.insert(EscErrorType::unknown());
                        }
                    }
                    summary.returned.join(value);
                },
                _ => {
                    summary.errors.insert(EscErrorType::unknown());
                },
            }
            assert(summary@ =~= summary_step(before, kv, sv, is_async));
            proof {
                taken = taken.push(entry);
                assert(all =~= taken + rest@);
            }
        }
        assert(taken =~= all);
        summary
    }
}

proof fn lemma_summary_empty(is_async: bool)
    ensures
        flow_summary_view(Map::<CompletionView, StateView>::empty(), is_async) == (SummaryView {
            errors: Set::empty(),
            returned: bottom_view(),
            completes: false,
        }),
{
    crate::value::law_join_bottom(bottom_view());
    assert(flow_summary_view(Map::<CompletionView, StateView>::empty(), is_async) =~= (SummaryView {
        errors: Set::empty(),
        returned: bottom_view(),
        completes: false,
    }));
}

/// The summary after one more completion, as the loop of `of_flow` builds it.
spec fn summary_step(before: SummaryView, kind: CompletionView, s: StateView, is_async: bool) -> SummaryView {
    match kind {
        CompletionView::Normal | CompletionView::Return => SummaryView {
            errors: before.errors.union(completion_errors(kind, s, is_async)),
            returned: join_view(before.returned, completion_value(kind, s, is_async)),
            completes: true,
        },
        _ => SummaryView {
            errors: before.errors.union(completion_errors(kind, s, is_async)),
            ..before
        },
    }
}

proof fn lemma_summary_insert(m: Map<CompletionView, StateView>, kind: CompletionView, s: StateView, is_async: bool)
    requires
        !m.contains_key(kind),
    ensures
        flow_summary_view(m.insert(kind, s), is_async) == summary_step(flow_summary_view(m, is_async), kind, s, is_async),
{
    let m2 = m.insert(kind, s);
    let a = flow_summary_view(m, is_async);
    let b = flow_summary_view(m2, is_async);
    let step = summary_step(a, kind, s, is_async);
    assert forall|t: ErrorTypeView| b.errors.contains(t) == step.errors.contains(t) by {
        if b.errors.contains(t) {
            let c = choose|c: CompletionView| m2.contains_key(c) && #[trigger] completion_errors(c, m2[c], is_async).contains(t);
            if c != kind {
                assert(m.contains_key(c) && completion_errors(c, m[c], is_async).contains(t));
            }
        }
        if a.errors.contains(t) {
            let c = choose|c: CompletionView| m.contains_key(c) && #[trigger] completion_errors(c, m[c], is_async).contains(t);
            assert(m2.contains_key(c) && completion_errors(c, m2[c], is_async).contains(t));
        }
        if completion_errors(kind, s, is_async).contains(t) {
            assert(m2.contains_key(kind) && completion_errors(kind, m2[kind], is_async).contains(t));
        }
    }
    assert(b.errors =~= step.errors);
    let n = if m.contains_key(CompletionView::Normal) {
        completion_value(CompletionView::Normal, m[CompletionView::Normal], is_async)
    } else {
        bottom_view()
    };
    let rv = if m.contains_key(CompletionView::Return) {
        completion_value(CompletionView::Return, m[CompletionView::Return], is_async)
    } else {
        bottom_view()
    };
    let v = completion_value(kind, s, is_async);
    crate::value::law_join_bottom(rv);
    crate::value::law_join_commutative(bottom_view(), rv);
    crate::value::law_join_commutative(rv, v);
    crate::value::law_join_bottom(n);
    assert(b =~= step);
}

/// The back edge of a loop after a `continue` with state `c`: its
/// environment is joined into the back edge's, whose value stays.
pub open spec fn continue_into(back: Option<StateView>, c: StateView) -> Option<StateView> {
    match back {
        Some(b) => Some(StateView { env: join_env_view(b.env, c.env), value: b.value }),
        None => Some(c),
    }
}

/// One loop target: a `break` to it leaves the loop normally, into `result`;
/// a `continue` to it goes back to the loop's head.
pub open spec fn loop_step(
    m: Map<CompletionView, StateView>,
    result: Map<CompletionView, StateView>,
    back: Option<StateView>,
    target: Option<Seq<char>>,
) -> (Map<CompletionView, StateView>, Map<CompletionView, StateView>, Option<StateView>) {
    let b = CompletionView::Break(target);
    let c = CompletionView::Continue(target);
    let result2 = if m.contains_key(b) {
        flow_add_view(result, CompletionView::Normal, m[b])
    } else {
        result
    };
    let m2 = m.remove(b);
    let back2 = if m2.contains_key(c) {
        continue_into(back, m2[c])
    } else {
        back
    };
    (m2.remove(c), result2, back2)
}

/// What one iteration of a loop labelled `label` leaves: `result` with the
/// iteration's breaks, to no label or to `label`, as normal completions and
/// with the iteration's other completions but normal ones and matching
/// continues; and the state that goes back to the loop's head, if any: the
/// normal completion with the environments of the matching continues joined
/// in.
pub open spec fn close_iteration_view(
    m: Map<CompletionView, StateView>,
    label: Option<Seq<char>>,
    result: Map<CompletionView, StateView>,
) -> (Map<CompletionView, StateView>, Option<StateView>) {
    let back = if m.contains_key(CompletionView::Normal) {
        Some(m[CompletionView::Normal])
    } else {
        None
    };
    let s1 = loop_step(m.remove(CompletionView::Normal), result, back, None);
    let s2 = loop_step(s1.0, s1.1, s1.2, label);
    (flow_join_view(s2.1, s2.0), s2.2)
}

/// The view of an optional state.
pub open spec fn state_option_view(s: Option<State>) -> Option<StateView> {
    match s {
        Some(s) => Some(s@),
        None => None,
    }
}

/// One loop target of `close_iteration`.
fn loop_target(iteration: &mut Flow, result: &mut Flow, back: &mut Option<State>, target: Option<String>)
    ensures
        ({
            let s = loop_step(old(iteration)@, old(result)@, state_option_view(*old(back)), label_view(target));
            &&& final(iteration)@ == s.0
            &&& final(result)@ == s.1
            &&& state_option_view(*final(back)) == s.2
        }),
{
    let label_copy = match &target {
        Some(t) => Some(string_of(&chars_of(t.as_str()))),
        None => None,
    };
    assert(label_view(label_copy) == label_view(target));
    match iteration.take(&Completion::Break(target)) {
        Some(state) => {
            result.add(Completion::Normal, state);
        },
        None => {},
    }
    match iteration.take(&Completion::Continue(label_copy)) {
        Some(state) => {
            let mut current: Option<State> = None;
            std::mem::swap(&mut current, back);
            match current {
                Some(mut b) => {
                    join_env(&mut b.env, state.env);
                    *back = Some(b);
                },
                None => {
                    *back = Some(state);
                },
            }
        },
        None => {},
    }
}

impl Flow {
    /// Closes one iteration of a loop labelled `label`: breaks to no label
    /// or to `label` become normal completions of the loop, added to
    /// `result` with the iteration's other completions but normal ones and
    /// matching continues; returns the state that goes back to the loop's
    /// head, if any: the normal completion with the environments of the
    /// matching continues joined in.
    pub fn close_iteration(self, label: Option<String>, result: &mut Flow) -> (back: Option<State>)
        ensures
            final(result)@ == close_iteration_view(self@, label_view(label), old(result)@).0,
            state_option_view(back) == close_iteration_view(self@, label_view(label), old(result)@).1,
    {
        let mut iteration = self;
        let mut back = iteration.take(&Completion::Normal);
        loop_target(&mut iteration, result, &mut back, None);
        loop_target(&mut iteration, result, &mut back, label);
        result.join(iteration);
        back
    }
}

/// What a `finally` block leaves of one pending completion: when the block
/// completes normally, the pending completion goes on with the block's
/// environment and its own value; every other completion of the block
/// replaces it.
pub open spec fn finish_pending_view(
    result: Map<CompletionView, StateView>,
    pending: CompletionView,
    state: StateView,
    finally_flow: Map<CompletionView, StateView>,
) -> Map<CompletionView, StateView> {
    let added = if finally_flow.contains_key(CompletionView::Normal) {
        flow_add_view(result, pending, StateView { env: finally_flow[CompletionView::Normal].env, value: state.value })
    } else {
        result
    };
    flow_join_view(added, finally_flow.remove(CompletionView::Normal))
}

impl Flow {
    /// The completions of the flow, each once, with their states.
    pub fn into_entries(self) -> (r: Vec<(Completion, State)>)
        ensures
            flow_map(r@) == self@,
            unique_completions(r@),
    {
        proof {
            use_type_invariant(&self);
        }
        self.entries
    }

    /// A labelled statement ends: a `break` to its label completes it
    /// normally.
    pub fn close_label(self, label: &str) -> (r: Flow)
        ensures
            ({
                let b = CompletionView::Break(Some(label@));
                &&& self@.contains_key(b) ==> r@ == flow_add_view(self@.remove(b), CompletionView::Normal, self@[b])
                &&& !self@.contains_key(b) ==> r@ == self@
            }),
    {
        let mut flow = self;
        let name = string_of(&chars_of(label));
        match flow.take(&Completion::Break(Some(name))) {
            Some(state) => {
                flow.add(Completion::Normal, state);
            },
            None => {},
        }
        flow
    }

    /// A `switch` ends: a `break` without a label completes it normally.
    pub fn close_break(self) -> (r: Flow)
        ensures
            ({
                let b = CompletionView::Break(None);
                &&& self@.contains_key(b) ==> r@ == flow_add_view(self@.remove(b), CompletionView::Normal, self@[b])
                &&& !self@.contains_key(b) ==> r@ == self@
            }),
    {
        let mut flow = self;
        match flow.take(&Completion::Break(None)) {
            Some(state) => {
                flow.add(Completion::Normal, state);
            },
            None => {},
        }
        flow
    }

    /// Adds to `result` what the `finally` block, which completed with
    /// `finally_flow` when run after the pending completion `pending` with
    /// `state`, leaves of it.
    pub fn finish_pending(result: &mut Flow, pending: Completion, state: State, finally_flow: Flow)
        ensures
            final(result)@ == finish_pending_view(old(result)@, pending@, state@, finally_flow@),
    {
        let mut finally_flow = finally_flow;
        match finally_flow.take(&Completion::Normal) {
            Some(normal) => {
                result.add(pending, State { env: normal.env, value: state.value });
            },
            None => {},
        }
        result.join(finally_flow);
    }
}

} // verus!
