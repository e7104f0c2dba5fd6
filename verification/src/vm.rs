//! The VM's global namespace and its printed output.
use crate::equality::{value_eq, value_equal};
use crate::ieee::Comparison;
use crate::operators::compare_text;
use crate::ops::{
    code_points, lemma_code_points_injective, lemma_lex_antisymmetric, lemma_lex_reflexive,
    lemma_lex_transitive, lex_compare,
};
use crate::value::{Value, VmValue, clone_vm, vm_view};
use vstd::prelude::*;
use vstd::string::StringExecFns;

verus! {

broadcast use vstd::string::to_string_from_display_ensures_for_str;

/// The global namespace as name/value pairs, ordered by name.
pub type Globals = Seq<(Seq<char>, Value)>;

/// One name orders before another: by code point, as Rust orders strings.
pub open spec fn name_less(a: Seq<char>, b: Seq<char>) -> bool {
    lex_compare(code_points(a), code_points(b)) == Comparison::Less
}

/// The names are in strictly increasing order.
pub open spec fn names_sorted(g: Globals) -> bool {
    forall|i: int, j: int| 0 <= i < j < g.len() ==> name_less(#[trigger] g[i].0, #[trigger] g[j].0)
}

/// Where a new name goes to keep the names ordered: after every name that
/// orders before it.
pub open spec fn insertion_point(g: Globals, name: Seq<char>) -> int
    decreases g.len(),
{
    if g.len() == 0 {
        0
    } else if name_less(g.last().0, name) {
        g.len() as int
    } else {
        insertion_point(g.drop_last(), name)
    }
}

/// No name is bound twice.
pub open spec fn names_unique(g: Globals) -> bool {
    forall|i: int, j: int| 0 <= i < j < g.len() ==> #[trigger] g[i].0 != #[trigger] g[j].0
}

/// The name is bound.
pub open spec fn is_bound(g: Globals, name: Seq<char>) -> bool {
    exists|i: int| 0 <= i < g.len() && #[trigger] g[i].0 == name
}

/// The position at which the name is bound.
pub open spec fn slot_of(g: Globals, name: Seq<char>) -> int {
    choose|i: int| 0 <= i < g.len() && #[trigger] g[i].0 == name
}

/// The value bound to a name, if any.
pub open spec fn lookup(g: Globals, name: Seq<char>) -> Option<Value> {
    if is_bound(g, name) {
        Some(g[slot_of(g, name)].1)
    } else {
        None
    }
}

/// The namespace after binding a name: a bound name keeps its position and
/// takes the new value; a new name is inserted where the order puts it.
pub open spec fn assign(g: Globals, name: Seq<char>, v: Value) -> Globals {
    if is_bound(g, name) {
        g.update(slot_of(g, name), (name, v))
    } else {
        g.insert(insertion_point(g, name), (name, v))
    }
}

/// The namespace after every value structurally equal to `previous` is
/// replaced by `updated`.
pub open spec fn replace_equal(g: Globals, previous: Value, updated: Value) -> Globals {
    Seq::new(
        g.len(),
        |i: int|
            if value_eq(g[i].1, previous) {
                (g[i].0, updated)
            } else {
                g[i]
            },
    )
}

/// The content of a list of name/value pairs.
pub open spec fn globals_view(g: Seq<(String, VmValue)>) -> Globals {
    Seq::new(g.len(), |i: int| (g[i].0@, vm_view(g[i].1)))
}

/// Names in strictly increasing order are never bound twice.
pub proof fn lemma_sorted_unique(g: Globals)
    requires
        names_sorted(g),
    ensures
        names_unique(g),
{
    assert forall|i: int, j: int| 0 <= i < j < g.len() implies #[trigger] g[i].0 != #[trigger] g[j].0 by {
        lemma_lex_reflexive(code_points(g[i].0));
        assert(name_less(g[i].0, g[j].0));
    }
}

/// The insertion point is the position before which every name orders
/// before the new one and from which none does.
pub proof fn lemma_insertion_point(g: Globals, name: Seq<char>, p: int)
    requires
        names_sorted(g),
        0 <= p <= g.len(),
        forall|j: int| 0 <= j < p ==> name_less(#[trigger] g[j].0, name),
        p < g.len() ==> !name_less(g[p].0, name),
    ensures
        insertion_point(g, name) == p,
    decreases g.len(),
{
    if g.len() > 0 {
        if p == g.len() {
            assert(name_less(g[g.len() - 1].0, name));
        } else {
            if p < g.len() - 1 {
                if name_less(g.last().0, name) {
                    assert(name_less(g[p].0, g[g.len() - 1].0));
                    lemma_lex_transitive(
                        code_points(g[p].0),
                        code_points(g[g.len() - 1].0),
                        code_points(name),
                    );
                }
            }
            let rest = g.drop_last();
            assert forall|a: int, b: int| 0 <= a < b < rest.len() implies name_less(
                #[trigger] rest[a].0,
                #[trigger] rest[b].0,
            ) by {
                assert(name_less(g[a].0, g[b].0));
            }
            assert forall|j: int| 0 <= j < p implies name_less(#[trigger] rest[j].0, name) by {
                assert(name_less(g[j].0, name));
            }
            lemma_insertion_point(rest, name, p);
        }
    }
}

/// The VM's global namespace and the text its `print` calls produced.
#[derive(Debug)]
pub struct Vm {
    globals: Vec<(String, VmValue)>,
    output: String,
}

impl Default for Vm {
    /// A VM whose only global is `print`, with nothing printed yet.
    fn default() -> (vm: Vm)
        ensures
            vm@ == seq![("print"@, Value::BuiltinPrint)],
            vm.printed() == Seq::<char>::empty(),
    {
        Vm::new()
    }
}

impl View for Vm {
    type V = Globals;

    closed spec fn view(&self) -> Globals {
        globals_view(self.globals@)
    }
}

impl Vm {
    #[verifier::type_invariant]
    closed spec fn names_are_sorted(self) -> bool {
        names_sorted(globals_view(self.globals@))
    }

    /// The text printed so far.
    pub closed spec fn printed(&self) -> Seq<char> {
        self.output@
    }

    /// A VM whose only global is `print`, with nothing printed yet.
    pub fn new() -> (vm: Vm)
        ensures
            vm@ == seq![("print"@, Value::BuiltinPrint)],
            vm.printed() == Seq::<char>::empty(),
    {
        let mut globals: Vec<(String, VmValue)> = Vec::new();
        globals.push(("print".to_string(), VmValue::BuiltinPrint));
        let vm = Vm { globals, output: String::new() };
        assert(vm@ =~= seq![("print"@, Value::BuiltinPrint)]);
        vm
    }

    /// The global names and their values, ordered by name.
    pub fn globals(&self) -> (r: &[(String, VmValue)])
        ensures
            globals_view(r@) == self@,
            names_sorted(self@),
            names_unique(self@),
    {
        proof {
            use_type_invariant(self);
            lemma_sorted_unique(self@);
        }
        self.globals.as_slice()
    }

    /// The position of a bound name.
    fn find(&self, name: &String) -> (r: Option<usize>)
        ensures
            match r {
                Some(i) => i < self@.len() && is_bound(self@, name@) && slot_of(self@, name@) == i,
                None => !is_bound(self@, name@),
            },
    {
        proof {
            use_type_invariant(self);
            lemma_sorted_unique(self@);
        }
        let mut i: usize = 0;
        while i < self.globals.len()
            invariant
                i <= self@.len() == self.globals@.len(),
                self@ == globals_view(self.globals@),
                names_unique(self@),
                forall|j: int| 0 <= j < i ==> #[trigger] self@[j].0 != name@,
            decreases self.globals@.len() - i,
        {
            if self.globals[i].0 == *name {
                assert(self@[i as int].0 == name@);
                return Some(i);
            }
            i += 1;
        }
        None
    }

    /// The value bound to a global name.
    pub fn global(&self, name: &str) -> (r: Option<&VmValue>)
        ensures
            match lookup(self@, name@) {
                Some(v) => r matches Some(x) && vm_view(*x) == v,
                None => r is None,
            },
    {
        let key = name.to_string();
        match self.find(&key) {
            Some(i) => Some(&self.globals[i].1),
            None => None,
        }
    }

    /// A copy of the value bound to a global name.
    pub(crate) fn load(&self, name: &String) -> (r: Option<VmValue>)
        ensures
            match lookup(self@, name@) {
                Some(v) => r matches Some(x) && vm_view(x) == v,
                None => r is None,
            },
    {
        match self.find(name) {
            Some(i) => Some(clone_vm(&self.globals[i].1)),
            None => None,
        }
    }

    /// Binds a global name.
    pub(crate) fn store(&mut self, name: &String, value: VmValue)
        ensures
            final(self)@ == assign(old(self)@, name@, vm_view(value)),
            final(self).printed() == old(self).printed(),
    {
        proof {
            use_type_invariant(&*self);
            lemma_sorted_unique(self@);
        }
        let ghost before = self@;
        let mut i: usize = 0;
        while i < self.globals.len() && compare_text(&self.globals[i].0, name) == Comparison::Less
            invariant
                i <= before.len() == self.globals@.len(),
                before == globals_view(self.globals@),
                names_sorted(before),
                forall|j: int| 0 <= j < i ==> name_less(#[trigger] before[j].0, name@),
            decreases self.globals@.len() - i,
        {
            assert(before[i as int].0 == self.globals@[i as int].0@);
            i += 1;
        }
        let found = i < self.globals.len() && self.globals[i].0 == *name;
        proof {
            if i < before.len() {
                assert(before[i as int].0 == self.globals@[i as int].0@);
            }
            if found {
                lemma_slot_of(before, name@, i as int);
            } else {
                assert forall|k: int| 0 <= k < before.len() implies #[trigger] before[k].0 != name@ by {
                    if before[k].0 == name@ {
                        lemma_lex_reflexive(code_points(name@));
                        if k < i {
                            assert(name_less(before[k].0, name@));
                        } else if k > i {
                            assert(name_less(before[i as int].0, before[k].0));
                        }
                    }
                }
                lemma_insertion_point(before, name@, i as int);
            }
            lemma_assign_lookup(before, name@, vm_view(value), name@);
        }
        let mut globals: Vec<(String, VmValue)> = Vec::new();
        std::mem::swap(&mut globals, &mut self.globals);
        if found {
            globals.set(i, (name.clone(), value));
            assert(globals_view(globals@) =~= before.update(i as int, (name@, vm_view(value))));
        } else {
            globals.insert(i, (name.clone(), value));
            assert(globals_view(globals@) =~= before.insert(i as int, (name@, vm_view(value))));
        }
        self.globals = globals;
    }

    /// Replaces every global structurally equal to `previous` by `updated`.
    pub(crate) fn replace_equal(&mut self, previous: &VmValue, updated: &VmValue)
        ensures
            final(self)@ == replace_equal(old(self)@, vm_view(*previous), vm_view(*updated)),
            final(self).printed() == old(self).printed(),
    {
        proof {
            use_type_invariant(&*self);
        }
        let ghost before = self@;
        let mut globals: Vec<(String, VmValue)> = Vec::new();
        std::mem::swap(&mut globals, &mut self.globals);
        let mut i: usize = 0;
        while i < globals.len()
            invariant
                i <= globals@.len() == before.len(),
                forall|j: int|
                    0 <= j < before.len() ==> #[trigger] globals_view(globals@)[j] == if j < i {
                        replace_equal(before, vm_view(*previous), vm_view(*updated))[j]
                    } else {
                        before[j]
                    },
            decreases globals@.len() - i,
        {
            let ghost old_globals = globals@;
            assert(globals_view(globals@)[i as int] == before[i as int]);
            if value_equal(&globals[i].1, previous) {
                let name = globals[i].0.clone();
                let value = clone_vm(updated);
                globals.set(i, (name, value));
            }
            assert forall|j: int| 0 <= j < before.len() && j != i implies #[trigger] globals_view(
                globals@,
            )[j] == globals_view(old_globals)[j] by {
                assert(globals@[j] == old_globals[j]);
            }
            i += 1;
        }
        assert(globals_view(globals@) =~= replace_equal(before, vm_view(*previous), vm_view(*updated)));
        proof {
            lemma_replace_equal_names(before, vm_view(*previous), vm_view(*updated));
        }
        self.globals = globals;
    }

    /// The text printed so far.
    pub fn output(&self) -> (r: &str)
        ensures
            r@ == self.printed(),
    {
        self.output.as_str()
    }

    /// Hands out the text printed so far and starts afresh.
    pub fn take_output(&mut self) -> (r: String)
        ensures
            r@ == old(self).printed(),
            final(self).printed() == Seq::<char>::empty(),
            final(self)@ == old(self)@,
    {
        proof {
            use_type_invariant(&*self);
        }
        let mut taken = String::new();
        std::mem::swap(&mut taken, &mut self.output);
        taken
    }

    /// Appends printed text.
    pub fn append_output(&mut self, text: &str)
        ensures
            final(self).printed() == old(self).printed() + text@,
            final(self)@ == old(self)@,
    {
        proof {
            use_type_invariant(&*self);
        }
        let mut out = String::new();
        std::mem::swap(&mut out, &mut self.output);
        out.append(text);
        self.output = out;
    }
}

/// With no name bound twice, a bound name's position is the one holding it.
pub proof fn lemma_slot_of(g: Globals, name: Seq<char>, i: int)
    requires
        names_unique(g),
        0 <= i < g.len(),
        g[i].0 == name,
    ensures
        is_bound(g, name),
        slot_of(g, name) == i,
{
    assert(is_bound(g, name));
    let k = slot_of(g, name);
    if k != i {
        if k < i {
            assert(g[k].0 != g[i].0);
        } else {
            assert(g[i].0 != g[k].0);
        }
    }
}

/// The insertion point lies after every name that orders before the new
/// one and before every other name.
pub proof fn lemma_insertion_point_bounds(g: Globals, name: Seq<char>)
    requires
        names_sorted(g),
    ensures
        0 <= insertion_point(g, name) <= g.len(),
        forall|j: int| 0 <= j < insertion_point(g, name) ==> name_less(#[trigger] g[j].0, name),
        insertion_point(g, name) < g.len() ==> !name_less(g[insertion_point(g, name)].0, name),
    decreases g.len(),
{
    if g.len() > 0 {
        let n = g.len() - 1;
        if name_less(g[n].0, name) {
            assert forall|j: int| 0 <= j < g.len() implies name_less(#[trigger] g[j].0, name) by {
                if j < n {
                    assert(name_less(g[j].0, g[n].0));
                    lemma_lex_transitive(code_points(g[j].0), code_points(g[n].0), code_points(name));
                }
            }
        } else {
            let rest = g.drop_last();
            assert forall|a: int, b: int| 0 <= a < b < rest.len() implies name_less(
                #[trigger] rest[a].0,
                #[trigger] rest[b].0,
            ) by {
                assert(name_less(g[a].0, g[b].0));
            }
            lemma_insertion_point_bounds(rest, name);
            assert forall|j: int| 0 <= j < insertion_point(g, name) implies name_less(
                #[trigger] g[j].0,
                name,
            ) by {
                assert(rest[j] == g[j]);
            }
        }
    }
}

/// Binding a name and then looking it up gives the bound value; every other
/// name keeps its value; the names stay in order (so none is bound twice).
pub proof fn lemma_assign_lookup(g: Globals, name: Seq<char>, v: Value, other: Seq<char>)
    requires
        names_sorted(g),
    ensures
        lookup(assign(g, name, v), name) == Some(v),
        other != name ==> lookup(assign(g, name, v), other) == lookup(g, other),
        names_sorted(assign(g, name, v)),
{
    lemma_sorted_unique(g);
    let h = assign(g, name, v);
    if is_bound(g, name) {
        let s = slot_of(g, name);
        assert(h == g.update(s, (name, v)));
        assert forall|a: int, b: int| 0 <= a < b < h.len() implies name_less(
            #[trigger] h[a].0,
            #[trigger] h[b].0,
        ) by {
            assert(h[a].0 == g[a].0);
            assert(h[b].0 == g[b].0);
        }
        lemma_sorted_unique(h);
        lemma_slot_of(h, name, s);
        if other != name {
            if is_bound(g, other) {
                let t = slot_of(g, other);
                assert(h[t].0 == other);
                lemma_slot_of(h, other, t);
            } else {
                assert forall|i: int| 0 <= i < h.len() implies #[trigger] h[i].0 != other by {
                    if i != s {
                        assert(h[i] == g[i]);
                    }
                }
            }
        }
    } else {
        let p = insertion_point(g, name);
        lemma_insertion_point_bounds(g, name);
        assert(h == g.insert(p, (name, v)));
        assert(h.len() == g.len() + 1);
        assert forall|j: int| 0 <= j < h.len() implies #[trigger] h[j] == if j < p {
            g[j]
        } else if j == p {
            (name, v)
        } else {
            g[j - 1]
        } by {}
        if p < g.len() {
            // The name orders before the name that follows it.
            let after = g[p].0;
            lemma_lex_antisymmetric(code_points(name), code_points(after));
            lemma_lex_antisymmetric(code_points(after), code_points(name));
            if lex_compare(code_points(after), code_points(name)) == Comparison::Equal {
                lemma_code_points_injective(after, name);
                assert(g[p].0 == name);
            }
            assert(name_less(name, after));
        }
        assert forall|a: int, b: int| 0 <= a < b < h.len() implies name_less(
            #[trigger] h[a].0,
            #[trigger] h[b].0,
        ) by {
            if b < p {
                assert(name_less(g[a].0, g[b].0));
            } else if b == p {
                assert(name_less(g[a].0, name));
            } else if a < p {
                if a < b - 1 {
                    assert(name_less(g[a].0, g[b - 1].0));
                }
            } else if a == p {
                if b - 1 > p {
                    assert(name_less(g[p].0, g[b - 1].0));
                    lemma_lex_transitive(
                        code_points(name),
                        code_points(g[p].0),
                        code_points(g[b - 1].0),
                    );
                }
            } else {
                assert(name_less(g[a - 1].0, g[b - 1].0));
            }
        }
        lemma_sorted_unique(h);
        lemma_slot_of(h, name, p);
        if other != name {
            if is_bound(g, other) {
                let t = slot_of(g, other);
                let u = if t < p {
                    t
                } else {
                    t + 1
                };
                assert(h[u] == g[t]);
                lemma_slot_of(h, other, u);
            } else {
                assert forall|i: int| 0 <= i < h.len() implies #[trigger] h[i].0 != other by {
                    if i < p {
                        assert(h[i] == g[i]);
                    } else if i > p {
                        assert(h[i] == g[i - 1]);
                    }
                }
            }
        }
    }
}

/// Replacing the values equal to a container keeps the names, so they stay
/// in order.
pub proof fn lemma_replace_equal_names(g: Globals, previous: Value, updated: Value)
    requires
        names_sorted(g),
    ensures
        names_sorted(replace_equal(g, previous, updated)),
        replace_equal(g, previous, updated).len() == g.len(),
        forall|i: int| 0 <= i < g.len() ==> #[trigger] replace_equal(g, previous, updated)[i].0 == g[i].0,
{
    let h = replace_equal(g, previous, updated);
    assert forall|a: int, b: int| 0 <= a < b < h.len() implies name_less(
        #[trigger] h[a].0,
        #[trigger] h[b].0,
    ) by {
        assert(h[a].0 == g[a].0);
        assert(h[b].0 == g[b].0);
    }
}

} // verus!
