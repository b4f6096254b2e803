use vstd::prelude::*;

use crate::text::{hex2_upper, hex4_upper, append_hex2_upper, append_hex4_upper, push_char};

verus! {

/// The numeric value behind a symbolic name: one byte or one 16-bit address.
#[derive(Clone, Copy, PartialEq, Eq, Structural, Debug)]
pub enum VariableValue {
    U8(u8),
    U16(u16),
}

/// An address binding: a symbolic name and the value it stands for.
#[derive(Clone, Debug)]
pub struct Variable {
    pub name: String,
    pub value: VariableValue,
}

/// The mathematical content of a `Variable`.
pub struct VariableView {
    pub name: Seq<char>,
    pub value: VariableValue,
}

impl View for Variable {
    type V = VariableView;

    open spec fn view(&self) -> VariableView {
        VariableView { name: self.name@, value: self.value }
    }
}

/// The text of a variable's value: `$` and two or four upper-case hex digits.
pub open spec fn value_text(v: VariableValue) -> Seq<char> {
    match v {
        VariableValue::U8(b) => seq!['$'] + hex2_upper(b),
        VariableValue::U16(w) => seq!['$'] + hex4_upper(w),
    }
}

impl VariableValue {
    /// Renders the value as the serializer prints it.
    pub fn to_write_string(&self) -> (r: String)
        ensures
            r@ == value_text(*self),
    {
        let mut s = String::new();
        push_char(&mut s, '$');
        match self {
            VariableValue::U8(b) => {
                append_hex2_upper(&mut s, *b);
            },
            VariableValue::U16(w) => {
                append_hex4_upper(&mut s, *w);
            },
        }
        proof {
            assert(s@ =~= value_text(*self));
        }
        s
    }
}

/// The address-to-name registry. It only ever grows; a bound address keeps
/// its binding forever.
pub struct VariableMap {
    entries: Vec<(u16, Variable)>,
}

/// The map described by an association list; a later entry for the same key
/// overrides an earlier one.
pub open spec fn entries_map(s: Seq<(u16, Variable)>) -> Map<u16, VariableView>
    decreases s.len(),
{
    if s.len() == 0 {
        Map::empty()
    } else {
        entries_map(s.drop_last()).insert(s.last().0, s.last().1@)
    }
}

impl View for VariableMap {
    type V = Map<u16, VariableView>;

    closed spec fn view(&self) -> Map<u16, VariableView> {
        entries_map(self.entries@)
    }
}

/// Unique keys: each address occurs at most once in the list.
pub open spec fn unique_keys(s: Seq<(u16, Variable)>) -> bool {
    forall|i: int, j: int| 0 <= i < j < s.len() ==> (#[trigger] s[i]).0 != (#[trigger] s[j]).0
}

proof fn lemma_entries_map_get(s: Seq<(u16, Variable)>, i: int)
    requires
        unique_keys(s),
        0 <= i < s.len(),
    ensures
        entries_map(s).contains_key(s[i].0),
        entries_map(s)[s[i].0] == s[i].1@,
    decreases s.len(),
{
    if i == s.len() - 1 {
    } else {
        assert(s.drop_last()[i] == s[i]);
        lemma_entries_map_get(s.drop_last(), i);
    }
}

proof fn lemma_entries_map_absent(s: Seq<(u16, Variable)>, k: u16)
    requires
        forall|i: int| 0 <= i < s.len() ==> (#[trigger] s[i]).0 != k,
    ensures
        !entries_map(s).contains_key(k),
    decreases s.len(),
{
    if s.len() > 0 {
        assert(forall|i: int| 0 <= i < s.drop_last().len() ==> (#[trigger] s.drop_last()[i]).0
            != k);
        lemma_entries_map_absent(s.drop_last(), k);
    }
}

proof fn lemma_entries_map_update(s: Seq<(u16, Variable)>, i: int, v: Variable)
    requires
        unique_keys(s),
        0 <= i < s.len(),
    ensures
        entries_map(s.update(i, (s[i].0, v))) == entries_map(s).insert(s[i].0, v@),
    decreases s.len(),
{
    let k = s[i].0;
    let t = s.update(i, (k, v));
    if i == s.len() - 1 {
        assert(t.drop_last() =~= s.drop_last());
        assert(entries_map(t) =~= entries_map(s).insert(k, v@));
    } else {
        assert(t.drop_last() =~= s.drop_last().update(i, (k, v)));
        assert(s.drop_last()[i] == s[i]);
        lemma_entries_map_update(s.drop_last(), i, v);
        assert(s.last().0 != k);
        assert(t.last() == s.last());
        assert(entries_map(t) =~= entries_map(s).insert(k, v@));
    }
}

proof fn lemma_entries_map_dom(s: Seq<(u16, Variable)>)
    ensures
        forall|k: u16|
            entries_map(s).contains_key(k) <==> exists|i: int|
                0 <= i < s.len() && (#[trigger] s[i]).0 == k,
    decreases s.len(),
{
    if s.len() > 0 {
        lemma_entries_map_dom(s.drop_last());
        assert forall|k: u16| entries_map(s).contains_key(k) implies exists|i: int|
            0 <= i < s.len() && (#[trigger] s[i]).0 == k by {
            if k == s.last().0 {
                assert(s[s.len() - 1].0 == k);
            } else {
                assert(entries_map(s.drop_last()).contains_key(k));
                let i = choose|i: int| 0 <= i < s.drop_last().len() && (#[trigger] s.drop_last()[
                    i
                ]).0 == k;
                assert(s.drop_last()[i] == s[i]);
                assert(s[i].0 == k);
            }
        }
        assert forall|k: u16| (exists|i: int| 0 <= i < s.len() && (#[trigger] s[i]).0 == k)
            implies entries_map(s).contains_key(k) by {
            let i = choose|i: int| 0 <= i < s.len() && (#[trigger] s[i]).0 == k;
            if i < s.len() - 1 {
                assert(s.drop_last()[i] == s[i]);
                assert(s.drop_last()[i].0 == k);
                assert(exists|j: int|
                    0 <= j < s.drop_last().len() && (#[trigger] s.drop_last()[j]).0 == k);
                assert(entries_map(s.drop_last()).contains_key(k));
            }
        }
    }
}

impl VariableMap {
    /// Internal invariant: no address is listed twice.
    pub closed spec fn wf(&self) -> bool {
        unique_keys(self.entries@)
    }

    pub fn new() -> (r: VariableMap)
        ensures
            r.wf(),
            r@ == Map::<u16, VariableView>::empty(),
    {
        VariableMap { entries: Vec::new() }
    }

    /// Binds `addr` to `var`, replacing any earlier binding.
    pub fn insert(&mut self, addr: u16, var: Variable)
        requires
            old(self).wf(),
        ensures
            final(self).wf(),
            final(self)@ == old(self)@.insert(addr, var@),
    {
        let ghost s0 = self.entries@;
        let n = self.entries.len();
        let mut i: usize = 0;
        while i < n
            invariant
                unique_keys(s0),
                s0 == old(self).entries@,
                self.entries@ == s0,
                n == s0.len(),
                i <= n,
                forall|j: int| 0 <= j < i ==> (#[trigger] s0[j]).0 != addr,
            decreases n - i,
        {
            if self.entries[i].0 == addr {
                proof {
                    lemma_entries_map_update(s0, i as int, var);
                }
                self.entries.set(i, (addr, var));
                proof {
                    let t = self.entries@;
                    assert(t =~= s0.update(i as int, (addr, var)));
                    assert(s0[i as int].0 == addr);
                    assert(entries_map(t) == entries_map(s0).insert(addr, var@));
                    assert forall|i1: int, j1: int| 0 <= i1 < j1 < t.len() implies (
                    #[trigger] t[i1]).0 != (#[trigger] t[j1]).0 by {
                        assert(t[i1].0 == s0[i1].0);
                        assert(t[j1].0 == s0[j1].0);
                    }
                }
                return ;
            }
            i = i + 1;
        }
        proof {
            lemma_entries_map_absent(s0, addr);
        }
        self.entries.push((addr, var));
        proof {
            let t = self.entries@;
            assert(t.drop_last() =~= s0);
            assert(t.last() == (addr, var));
            assert(entries_map(t) == entries_map(s0).insert(addr, var@));
            assert forall|i1: int, j1: int| 0 <= i1 < j1 < t.len() implies (#[trigger] t[i1]).0
                != (#[trigger] t[j1]).0 by {
                if j1 < t.len() - 1 {
                    assert(t[i1] == s0[i1]);
                    assert(t[j1] == s0[j1]);
                } else {
                    assert(t[i1] == s0[i1]);
                    assert(t[j1].0 == addr);
                }
            }
        }
    }

    /// Looks an address up.
    pub fn get(&self, addr: u16) -> (r: Option<&Variable>)
        requires
            self.wf(),
        ensures
            match r {
                Some(v) => self@.contains_key(addr) && v@ == self@[addr],
                None => !self@.contains_key(addr),
            },
    {
        let n = self.entries.len();
        let mut i: usize = 0;
        while i < n
            invariant
                self.wf(),
                n == self.entries.len(),
                i <= n,
                forall|j: int| 0 <= j < i ==> (#[trigger] self.entries@[j]).0 != addr,
            decreases n - i,
        {
            if self.entries[i].0 == addr {
                proof {
                    lemma_entries_map_get(self.entries@, i as int);
                }
                return Some(&self.entries[i].1);
            }
            i = i + 1;
        }
        proof {
            lemma_entries_map_absent(self.entries@, addr);
        }
        None
    }

    /// The bound addresses, each once, in insertion order.
    pub fn keys(&self) -> (r: Vec<u16>)
        requires
            self.wf(),
        ensures
            r@.no_duplicates(),
            forall|k: u16| r@.contains(k) <==> self@.contains_key(k),
    {
        let n = self.entries.len();
        let mut r: Vec<u16> = Vec::new();
        let mut i: usize = 0;
        while i < n
            invariant
                self.wf(),
                n == self.entries.len(),
                i <= n,
                r@.len() == i,
                forall|j: int| 0 <= j < i ==> r@[j] == (#[trigger] self.entries@[j]).0,
            decreases n - i,
        {
            let k = self.entries[i].0;
            r.push(k);
            i = i + 1;
        }
        proof {
            lemma_entries_map_dom(self.entries@);
            assert forall|k: u16| r@.contains(k) implies self@.contains_key(k) by {
                let j = choose|j: int| 0 <= j < r@.len() && r@[j] == k;
                assert(self.entries@[j].0 == k);
            }
            assert forall|k: u16| self@.contains_key(k) implies r@.contains(k) by {
                let j = choose|j: int| 0 <= j < self.entries@.len() && (#[trigger] self.entries@[
                    j
                ]).0 == k;
                assert(r@[j] == k);
            }
            assert forall|i1: int, j1: int| 0 <= i1 < j1 < r@.len() implies r@[i1] != r@[j1] by {
                assert(self.entries@[i1].0 != self.entries@[j1].0);
            }
        }
        r
    }

    /// A copy with the same bindings.
    pub fn duplicate(&self) -> (r: VariableMap)
        requires
            self.wf(),
        ensures
            r.wf(),
            r@ == self@,
    {
        let n = self.entries.len();
        let mut entries: Vec<(u16, Variable)> = Vec::new();
        let mut i: usize = 0;
        while i < n
            invariant
                n == self.entries.len(),
                i <= n,
                entries@.len() == i,
                forall|j: int| 0 <= j < i ==> entries@[j] == self.entries@[j],
            decreases n - i,
        {
            let addr = self.entries[i].0;
            let name = self.entries[i].1.name.clone();
            let value = self.entries[i].1.value;
            let var = Variable { name, value };
            proof {
                assert(var == self.entries@[i as int].1);
            }
            entries.push((addr, var));
            i = i + 1;
        }
        proof {
            assert(entries@ =~= self.entries@);
        }
        VariableMap { entries }
    }
}

} // verus!
