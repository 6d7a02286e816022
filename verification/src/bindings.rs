//! Lexical facts about the bindings of a module: which are ever reassigned,
//! and which are written from a function other than the one that declares
//! them. Values of the latter may change behind a call, so the analysis
//! widens them.
use crate::env::{env_entries, env_get, env_insert, env_keys, env_len, Env};
use crate::error::{unknown_view, EscErrorType};
use crate::value::{Value, ValueView};
use vstd::prelude::*;

verus! {

broadcast use vstd::seq_lib::group_seq_properties;

/// The shape of a module's syntax tree: the parent of each node, and whether
/// each node owns the bindings declared inside it (a function, an arrow
/// function or the program).
#[derive(Debug)]
pub struct EscNodeTree {
    pub parents: Vec<u32>,
    pub owners: Vec<bool>,
}

/// What the analysis reads of one symbol: the node that declares it,
/// whether it is ever reassigned, and the nodes that write to it.
#[derive(Debug)]
pub struct EscSymbolWrites {
    pub declaration: u32,
    pub mutated: bool,
    pub writes: Vec<u32>,
}

/// Whether every node that owns no bindings has a parent with a smaller
/// number, as parents precede their children.
pub open spec fn tree_wf(parents: Seq<u32>, owners: Seq<bool>) -> bool {
    &&& parents.len() == owners.len()
    &&& forall|i: int| 0 <= i < parents.len() ==> owners[i] || parents[i] < i
}

/// The nearest node at or above `node` that owns bindings.
pub open spec fn owner_of(parents: Seq<u32>, owners: Seq<bool>, node: int) -> int
    decreases node,
{
    if node < 0 || node >= parents.len() || node >= owners.len() || owners[node] || parents[node] >= node {
        node
    } else {
        owner_of(parents, owners, parents[node] as int)
    }
}

/// Whether some write to a symbol happens in another owner than its declaration.
pub open spec fn written_elsewhere(parents: Seq<u32>, owners: Seq<bool>, s: EscSymbolWrites) -> bool {
    exists|j: int|
        0 <= j < s.writes@.len() && owner_of(parents, owners, #[trigger] s.writes@[j] as int)
            != owner_of(parents, owners, s.declaration as int)
}

/// Binding facts of a module.
#[derive(Debug)]
pub struct BindingFacts {
    symbols: Vec<u32>,
    flags: Vec<bool>,
    mutated: Vec<bool>,
}

/// What widening does to a value that may change behind a call: it may then
/// be anything, and be falsy or truthy.
pub open spec fn widened(v: ValueView) -> ValueView {
    ValueView { types: v.types.insert(unknown_view()), nonglobal: true, truth: 3, ..v }
}

/// Widening each flagged binding of an environment.
pub open spec fn widen_view(flags: Seq<bool>, env: Map<u32, ValueView>) -> Map<u32, ValueView> {
    Map::new(
        |k: u32| env.contains_key(k),
        |k: u32|
            if flags[k as int] {
                widened(env[k])
            } else {
                env[k]
            },
    )
}

impl BindingFacts {
    #[verifier::type_invariant]
    spec fn inv(self) -> bool {
        &&& self.flags@.len() <= u32::MAX
        &&& forall|s: u32| self.symbols@.contains(s) <==> s < self.flags@.len() && self.flags@[s as int]
    }

    /// Which symbols are written from another function than their own.
    pub closed spec fn flags(&self) -> Seq<bool> {
        self.flags@
    }

    /// Which symbols are ever reassigned.
    pub closed spec fn mutated_view(&self) -> Seq<bool> {
        self.mutated@
    }

    /// The flagged symbols, in increasing order.
    pub closed spec fn symbols_view(&self) -> Seq<u32> {
        self.symbols@
    }

    /// The facts of the symbols of a module, numbered from zero, over its
    /// syntax tree. Symbols without writes are neither mutated nor flagged.
    pub fn new(tree: &EscNodeTree, symbols: &Vec<EscSymbolWrites>) -> (r: Self)
        requires
            tree_wf(tree.parents@, tree.owners@),
            symbols@.len() <= u32::MAX,
            forall|s: int| 0 <= s < symbols@.len() ==> (#[trigger] symbols@[s]).declaration < tree.parents@.len(),
            forall|s: int, j: int| 0 <= s < symbols@.len() && 0 <= j < symbols@[s].writes@.len() ==> #[trigger] symbols@[s].writes@[j] < tree.parents@.len(),
        ensures
            r.flags().len() == symbols@.len(),
            r.mutated_view().len() == symbols@.len(),
            forall|s: int| 0 <= s < symbols@.len() ==> #[trigger] r.mutated_view()[s] == (symbols@[s].writes@.len() > 0 && symbols@[s].mutated),
            forall|s: int| 0 <= s < symbols@.len() ==> #[trigger] r.flags()[s] == written_elsewhere(tree.parents@, tree.owners@, symbols@[s]),
            forall|i: int, j: int| 0 <= i < j < r.symbols_view().len() ==> r.symbols_view()[i] < r.symbols_view()[j],
            forall|s: u32| r.symbols_view().contains(s) <==> s < symbols@.len() && r.flags()[s as int],
    {
        let n = symbols.len();
        let mut flags: Vec<bool> = Vec::new();
        let mut mutated: Vec<bool> = Vec::new();
        let mut written: Vec<u32> = Vec::new();
        let mut s: usize = 0;
        while s < n
            invariant
                n == symbols@.len(),
                n <= u32::MAX,
                0 <= s <= n,
                tree_wf(tree.parents@, tree.owners@),
                forall|t: int| 0 <= t < symbols@.len() ==> (#[trigger] symbols@[t]).declaration < tree.parents@.len(),
                forall|t: int, j: int| 0 <= t < symbols@.len() && 0 <= j < symbols@[t].writes@.len() ==> #[trigger] symbols@[t].writes@[j] < tree.parents@.len(),
                flags@.len() == s,
                mutated@.len() == s,
                forall|t: int| 0 <= t < s ==> #[trigger] mutated@[t] == (symbols@[t].writes@.len() > 0 && symbols@[t].mutated),
                forall|t: int| 0 <= t < s ==> #[trigger] flags@[t] == written_elsewhere(tree.parents@, tree.owners@, symbols@[t]),
                forall|i: int, j: int| 0 <= i < j < written@.len() ==> written@[i] < written@[j],
                forall|t: u32| written@.contains(t) <==> t < s && flags@[t as int],
            decreases n - s,
        {
            let facts = &symbols[s];
            if facts.writes.len() == 0 {
                flags.push(false);
                mutated.push(false);
                proof {
                    assert forall|t: u32| written@.contains(t) <==> t < s + 1 && flags@[t as int] by {
                        if t == s {
                            assert(!flags@[t as int]);
                        }
                    }
                }
            } else {
                mutated.push(facts.mutated);
                let home = owner(tree, facts.declaration);
                let mut elsewhere = false;
                let mut j: usize = 0;
                while j < facts.writes.len()
                    invariant
                        facts == symbols@[s as int],
                        tree_wf(tree.parents@, tree.owners@),
                        forall|jj: int| 0 <= jj < facts.writes@.len() ==> #[trigger] facts.writes@[jj] < tree.parents@.len(),
                        home == owner_of(tree.parents@, tree.owners@, facts.declaration as int),
                        0 <= j <= facts.writes@.len(),
                        elsewhere == exists|jj: int| 0 <= jj < j && owner_of(tree.parents@, tree.owners@, #[trigger] facts.writes@[jj] as int) != home,
                    decreases facts.writes@.len() - j,
                {
                    if owner(tree, facts.writes[j]) != home {
                        elsewhere = true;
                    }
                    j = j + 1;
                }
                flags.push(elsewhere);
                if elsewhere {
                    let ghost w0 = written@;
                    written.push(s as u32);
                    proof {
                        assert forall|t: u32| written@.contains(t) <==> t < s + 1 && flags@[t as int] by {
                            if written@.contains(t) && t != s {
                                let i = choose|i: int| 0 <= i < written@.len() && written@[i] == t;
                                assert(w0[i] == t);
                            }
                            if t < s && flags@[t as int] {
                                assert(w0.contains(t));
                                let i = choose|i: int| 0 <= i < w0.len() && w0[i] == t;
                                assert(written@[i] == t);
                            }
                            if t == s {
                                assert(written@[w0.len() as int] == t);
                            }
                        }
                        assert forall|i: int, k: int| 0 <= i < k < written@.len() implies written@[i] < written@[k] by {
                            if k == w0.len() {
                                assert(w0.contains(w0[i]));
                            }
                        }
                    }
                } else {
                    proof {
                        assert forall|t: u32| written@.contains(t) <==> t < s + 1 && flags@[t as int] by {
                            if t == s {
                                assert(!flags@[t as int]);
                            }
                        }
                    }
                }
            }
            s = s + 1;
        }
        proof {
            assert forall|t: u32| written@.contains(t) <==> t < flags@.len() && flags@[t as int] by {}
        }
        BindingFacts { symbols: written, flags, mutated }
    }

    /// The symbols written from another function than their own, in
    /// increasing order.
    pub fn symbols(&self) -> (r: &Vec<u32>)
        ensures
            r@ == self.symbols_view(),
    {
        &self.symbols
    }

    /// Whether `symbol` is ever reassigned.
    /// How many symbols the write facts cover.
    pub fn symbol_count(&self) -> (r: usize)
        ensures
            r == self.flags().len(),
    {
        self.flags.len()
    }

    pub fn is_mutated(&self, symbol: u32) -> (r: bool)
        requires
            symbol < self.mutated_view().len(),
        ensures
            r == self.mutated_view()[symbol as int],
    {
        self.mutated[symbol as usize]
    }

    /// Widens every binding of `env` that is written from another function:
    /// such a value may have changed behind any call.
    pub fn widen(&self, env: &mut Env)
        requires
            forall|k: u32| env_entries(*old(env)).contains_key(k) ==> k < self.flags().len(),
        ensures
            env_entries(*final(env)) == widen_view(self.flags(), env_entries(*old(env))),
    {
        proof {
            use_type_invariant(self);
        }
        let ghost start = env_entries(*env);
        let candidates: Vec<u32> = if env_len(env) < self.symbols.len() {
            env_keys(env)
        } else {
            let mut all: Vec<u32> = Vec::new();
            let mut k: usize = 0;
            while k < self.symbols.len()
                invariant
                    0 <= k <= self.symbols@.len(),
                    all@ == self.symbols@.take(k as int),
                decreases self.symbols@.len() - k,
            {
                all.push(self.symbols[k]);
                k = k + 1;
                assert(all@ =~= self.symbols@.take(k as int));
            }
            assert(self.symbols@.take(self.symbols@.len() as int) =~= self.symbols@);
            all
        };
        assert(forall|k: u32| #[trigger] start.contains_key(k) && self.flags@[k as int] ==> candidates@.contains(k));
        let mut i: usize = 0;
        while i < candidates.len()
            invariant
                0 <= i <= candidates@.len(),
                forall|k: u32| start.contains_key(k) ==> k < self.flags@.len(),
                forall|k: u32| #[trigger] start.contains_key(k) && self.flags@[k as int] ==> candidates@.contains(k),
                env_entries(*env).dom() == start.dom(),
                forall|k: u32| #[trigger] start.contains_key(k) ==> (env_entries(*env)[k] == start[k] || (self.flags@[k as int] && env_entries(*env)[k] == widened(start[k]))),
                forall|j: int| 0 <= j < i && start.contains_key(#[trigger] candidates@[j]) && self.flags@[candidates@[j] as int] ==> env_entries(*env)[candidates@[j]] == widened(start[candidates@[j]]),
            decreases candidates@.len() - i,
        {
            let symbol = candidates[i];
            let ghost before = env_entries(*env);
            let current = match env_get(env, symbol) {
                Some(v) => {
                    if self.flags[symbol as usize] && needs_widening(v) {
                        let mut value = v.duplicate();
                        value.types.insert(EscErrorType::unknown());
                        value.nonglobal = true;
                        value.truth = 3;
                        Some(value)
                    } else {
                        None
                    }
                },
                None => None,
            };
            match current {
                Some(value) => {
                    proof {
                        assert(value@ == widened(before[symbol]));
                        assert(before[symbol] == start[symbol]);
                    }
                    env_insert(env, symbol, value);
                    proof {
                        assert(env_entries(*env).dom() =~= start.dom());
                    }
                },
                None => {
                    proof {
                        if start.contains_key(symbol) && self.flags@[symbol as int] {
                            assert(!needs_widening_view(before[symbol]));
                            assert(widened(before[symbol]) =~= before[symbol]);
                        }
                    }
                },
            }
            i = i + 1;
        }
        proof {
            let e = env_entries(*env);
            assert forall|k: u32| #[trigger] start.contains_key(k) && self.flags@[k as int] implies e[k] == widened(start[k]) by {
                assert(candidates@.contains(k));
                let j = choose|j: int| 0 <= j < candidates@.len() && candidates@[j] == k;
                assert(start.contains_key(candidates@[j]));
            }
            assert(e =~= widen_view(self.flags@, start));
        }
    }
}

/// Whether widening would change a value.
pub open spec fn needs_widening_view(v: ValueView) -> bool {
    !v.nonglobal || v.truth != 3 || !v.types.contains(unknown_view())
}

fn needs_widening(v: &Value) -> (r: bool)
    ensures
        r == needs_widening_view(v@),
{
    !v.nonglobal || v.truth != 3 || !v.types.contains(&EscErrorType::unknown())
}

/// The nearest node at or above `node` that owns bindings.
fn owner(tree: &EscNodeTree, node: u32) -> (r: u32)
    requires
        tree_wf(tree.parents@, tree.owners@),
        node < tree.parents@.len(),
    ensures
        r == owner_of(tree.parents@, tree.owners@, node as int),
{
    let mut current = node;
    while !tree.owners[current as usize]
        invariant
            tree_wf(tree.parents@, tree.owners@),
            current < tree.parents@.len(),
            owner_of(tree.parents@, tree.owners@, current as int) == owner_of(tree.parents@, tree.owners@, node as int),
        decreases current,
    {
        current = tree.parents[current as usize];
    }
    current
}

/// Widening is idempotent: widening the flagged bindings of an environment
/// twice gives what widening them once gives.
pub proof fn law_widen_idempotent(flags: Seq<bool>, env: Map<u32, ValueView>)
    ensures
        widen_view(flags, widen_view(flags, env)) == widen_view(flags, env),
{
    let once = widen_view(flags, env);
    let twice = widen_view(flags, once);
    assert forall|k: u32| #[trigger] twice.contains_key(k) implies twice[k] == once[k] by {
        if flags[k as int] {
            assert(widened(widened(env[k])) =~= widened(env[k]));
        }
    }
    assert(twice =~= once);
}

} // verus!
