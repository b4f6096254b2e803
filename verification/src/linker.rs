use vstd::prelude::*;

use crate::text::push_char;

verus! {

// ---------------------------------------------------------------------------
// Character classes of the linker-configuration grammar
// ---------------------------------------------------------------------------
/// An ASCII letter.
pub open spec fn is_cfg_alpha(c: char) -> bool {
    ('a' <= c && c <= 'z') || ('A' <= c && c <= 'Z')
}

/// An ASCII letter or digit.
pub open spec fn is_cfg_alnum(c: char) -> bool {
    is_cfg_alpha(c) || ('0' <= c && c <= '9')
}

/// A space or tab: the only blanks allowed between list elements.
pub open spec fn is_inline_space(c: char) -> bool {
    c == ' ' || c == '\t'
}

/// Any blank, line breaks included.
pub open spec fn is_any_space(c: char) -> bool {
    c == ' ' || c == '\t' || c == '\n' || c == '\r'
}

/// A character an argument value may hold: anything but the two list
/// punctuation marks.
pub open spec fn is_value_char(c: char) -> bool {
    c != ',' && c != ';'
}

/// The end of the run of `is_cfg_alpha` characters starting at `i`.
pub open spec fn scan_alpha_from(s: Seq<char>, i: int) -> int
    decreases s.len() - i,
{
    if 0 <= i && i < s.len() && is_cfg_alpha(s[i]) {
        scan_alpha_from(s, i + 1)
    } else {
        i
    }
}

pub proof fn lemma_scan_alpha_from(s: Seq<char>, i: int)
    requires
        0 <= i <= s.len(),
    ensures
        i <= scan_alpha_from(s, i) <= s.len(),
        forall|k: int| i <= k < scan_alpha_from(s, i) ==> is_cfg_alpha(s[k]),
        scan_alpha_from(s, i) == s.len() || !is_cfg_alpha(s[scan_alpha_from(s, i)]),
    decreases s.len() - i,
{
    if i < s.len() && is_cfg_alpha(s[i]) {
        lemma_scan_alpha_from(s, i + 1);
    }
}

fn scan_alpha(v: &Vec<char>, i: usize) -> (j: usize)
    requires
        i <= v@.len(),
    ensures
        j == scan_alpha_from(v@, i as int),
        i <= j <= v@.len(),
{
    let mut j = i;
    while j < v.len() && (('a' <= v[j] && v[j] <= 'z') || ('A' <= v[j] && v[j] <= 'Z'))
        invariant
            i <= j <= v@.len(),
            scan_alpha_from(v@, j as int) == scan_alpha_from(v@, i as int),
        decreases v@.len() - j,
    {
        j = j + 1;
    }
    proof {
        lemma_scan_alpha_from(v@, i as int);
    }
    j
}

/// The end of the run of `is_cfg_alnum` characters starting at `i`.
pub open spec fn scan_alnum_from(s: Seq<char>, i: int) -> int
    decreases s.len() - i,
{
    if 0 <= i && i < s.len() && is_cfg_alnum(s[i]) {
        scan_alnum_from(s, i + 1)
    } else {
        i
    }
}

pub proof fn lemma_scan_alnum_from(s: Seq<char>, i: int)
    requires
        0 <= i <= s.len(),
    ensures
        i <= scan_alnum_from(s, i) <= s.len(),
        forall|k: int| i <= k < scan_alnum_from(s, i) ==> is_cfg_alnum(s[k]),
        scan_alnum_from(s, i) == s.len() || !is_cfg_alnum(s[scan_alnum_from(s, i)]),
    decreases s.len() - i,
{
    if i < s.len() && is_cfg_alnum(s[i]) {
        lemma_scan_alnum_from(s, i + 1);
    }
}

fn scan_alnum(v: &Vec<char>, i: usize) -> (j: usize)
    requires
        i <= v@.len(),
    ensures
        j == scan_alnum_from(v@, i as int),
        i <= j <= v@.len(),
{
    let mut j = i;
    while j < v.len() && (('a' <= v[j] && v[j] <= 'z') || ('A' <= v[j] && v[j] <= 'Z') || ('0' <= v[j] && v[j] <= '9'))
        invariant
            i <= j <= v@.len(),
            scan_alnum_from(v@, j as int) == scan_alnum_from(v@, i as int),
        decreases v@.len() - j,
    {
        j = j + 1;
    }
    proof {
        lemma_scan_alnum_from(v@, i as int);
    }
    j
}

/// The end of the run of `is_inline_space` characters starting at `i`.
pub open spec fn scan_inline_space_from(s: Seq<char>, i: int) -> int
    decreases s.len() - i,
{
    if 0 <= i && i < s.len() && is_inline_space(s[i]) {
        scan_inline_space_from(s, i + 1)
    } else {
        i
    }
}

pub proof fn lemma_scan_inline_space_from(s: Seq<char>, i: int)
    requires
        0 <= i <= s.len(),
    ensures
        i <= scan_inline_space_from(s, i) <= s.len(),
        forall|k: int| i <= k < scan_inline_space_from(s, i) ==> is_inline_space(s[k]),
        scan_inline_space_from(s, i) == s.len() || !is_inline_space(s[scan_inline_space_from(s, i)]),
    decreases s.len() - i,
{
    if i < s.len() && is_inline_space(s[i]) {
        lemma_scan_inline_space_from(s, i + 1);
    }
}

fn scan_inline_space(v: &Vec<char>, i: usize) -> (j: usize)
    requires
        i <= v@.len(),
    ensures
        j == scan_inline_space_from(v@, i as int),
        i <= j <= v@.len(),
{
    let mut j = i;
    while j < v.len() && (v[j] == ' ' || v[j] == '\t')
        invariant
            i <= j <= v@.len(),
            scan_inline_space_from(v@, j as int) == scan_inline_space_from(v@, i as int),
        decreases v@.len() - j,
    {
        j = j + 1;
    }
    proof {
        lemma_scan_inline_space_from(v@, i as int);
    }
    j
}

/// The end of the run of `is_any_space` characters starting at `i`.
pub open spec fn scan_any_space_from(s: Seq<char>, i: int) -> int
    decreases s.len() - i,
{
    if 0 <= i && i < s.len() && is_any_space(s[i]) {
        scan_any_space_from(s, i + 1)
    } else {
        i
    }
}

pub proof fn lemma_scan_any_space_from(s: Seq<char>, i: int)
    requires
        0 <= i <= s.len(),
    ensures
        i <= scan_any_space_from(s, i) <= s.len(),
        forall|k: int| i <= k < scan_any_space_from(s, i) ==> is_any_space(s[k]),
        scan_any_space_from(s, i) == s.len() || !is_any_space(s[scan_any_space_from(s, i)]),
    decreases s.len() - i,
{
    if i < s.len() && is_any_space(s[i]) {
        lemma_scan_any_space_from(s, i + 1);
    }
}

fn scan_any_space(v: &Vec<char>, i: usize) -> (j: usize)
    requires
        i <= v@.len(),
    ensures
        j == scan_any_space_from(v@, i as int),
        i <= j <= v@.len(),
{
    let mut j = i;
    while j < v.len() && (v[j] == ' ' || v[j] == '\t' || v[j] == '\n' || v[j] == '\r')
        invariant
            i <= j <= v@.len(),
            scan_any_space_from(v@, j as int) == scan_any_space_from(v@, i as int),
        decreases v@.len() - j,
    {
        j = j + 1;
    }
    proof {
        lemma_scan_any_space_from(v@, i as int);
    }
    j
}

/// The end of the run of `is_value_char` characters starting at `i`.
pub open spec fn scan_value_from(s: Seq<char>, i: int) -> int
    decreases s.len() - i,
{
    if 0 <= i && i < s.len() && is_value_char(s[i]) {
        scan_value_from(s, i + 1)
    } else {
        i
    }
}

pub proof fn lemma_scan_value_from(s: Seq<char>, i: int)
    requires
        0 <= i <= s.len(),
    ensures
        i <= scan_value_from(s, i) <= s.len(),
        forall|k: int| i <= k < scan_value_from(s, i) ==> is_value_char(s[k]),
        scan_value_from(s, i) == s.len() || !is_value_char(s[scan_value_from(s, i)]),
    decreases s.len() - i,
{
    if i < s.len() && is_value_char(s[i]) {
        lemma_scan_value_from(s, i + 1);
    }
}

fn scan_value(v: &Vec<char>, i: usize) -> (j: usize)
    requires
        i <= v@.len(),
    ensures
        j == scan_value_from(v@, i as int),
        i <= j <= v@.len(),
{
    let mut j = i;
    while j < v.len() && (v[j] != ',' && v[j] != ';')
        invariant
            i <= j <= v@.len(),
            scan_value_from(v@, j as int) == scan_value_from(v@, i as int),
        decreases v@.len() - j,
    {
        j = j + 1;
    }
    proof {
        lemma_scan_value_from(v@, i as int);
    }
    j
}

/// The characters of a text, one cell each.
fn str_to_chars(t: &str) -> (r: Vec<char>)
    ensures
        r@ == t@,
{
    broadcast use vstd::string::next_postcondition, vstd::string::axiom_spec_iter;

    let mut r: Vec<char> = Vec::new();
    let mut it = t.chars();
    loop
        invariant
            r@.len() <= t@.len(),
            vstd::std_specs::iter::IteratorSpec::remaining(&it) == t@.skip(r@.len() as int),
            vstd::std_specs::iter::IteratorSpec::obeys_prophetic_iter_laws(&it),
            r@ == t@.take(r@.len() as int),
        decreases t@.len() - r@.len(),
    {
        let c = it.next();
        match c {
            Some(ch) => {
                proof {
                    assert(t@.skip(r@.len() as int)[0] == t@[r@.len() as int]);
                    assert(t@.skip(r@.len() as int).drop_first() =~= t@.skip(r@.len() as int + 1));
                    assert(r@.push(t@[r@.len() as int]) =~= t@.take(r@.len() as int + 1));
                }
                r.push(ch);
            },
            None => {
                proof {
                    assert(t@.skip(r@.len() as int).len() == 0);
                    assert(r@ =~= t@);
                }
                return r;
            },
        }
    }
}

/// The text between two positions, as an owned string.
fn chars_to_string(v: &Vec<char>, from: usize, to: usize) -> (r: String)
    requires
        from <= to <= v@.len(),
    ensures
        r@ == v@.subrange(from as int, to as int),
{
    let mut r = String::new();
    let mut j = from;
    while j < to
        invariant
            from <= j <= to <= v@.len(),
            r@ == v@.subrange(from as int, j as int),
        decreases to - j,
    {
        push_char(&mut r, v[j]);
        proof {
            assert(v@.subrange(from as int, j + 1) =~= v@.subrange(from as int, j as int)
                + seq![v@[j as int]]);
        }
        j = j + 1;
    }
    r
}

// ---------------------------------------------------------------------------
// String-keyed association maps
// ---------------------------------------------------------------------------
/// The map described by a key-value list; a later entry for the same key
/// overrides an earlier one.
pub open spec fn str_entries_map<V: View>(s: Seq<(String, V)>) -> Map<Seq<char>, V::V>
    decreases s.len(),
{
    if s.len() == 0 {
        Map::empty()
    } else {
        str_entries_map(s.drop_last()).insert(s.last().0@, s.last().1@)
    }
}

/// Unique keys: each name occurs at most once in the list.
pub open spec fn str_unique_keys<V>(s: Seq<(String, V)>) -> bool {
    forall|i: int, j: int| 0 <= i < j < s.len() ==> (#[trigger] s[i]).0@ != (#[trigger] s[j]).0@
}

proof fn lemma_str_entries_map_get<V: View>(s: Seq<(String, V)>, i: int)
    requires
        str_unique_keys(s),
        0 <= i < s.len(),
    ensures
        str_entries_map(s).contains_key(s[i].0@),
        str_entries_map(s)[s[i].0@] == s[i].1@,
    decreases s.len(),
{
    if i == s.len() - 1 {
    } else {
        assert(s.drop_last()[i] == s[i]);
        lemma_str_entries_map_get(s.drop_last(), i);
    }
}

proof fn lemma_str_entries_map_absent<V: View>(s: Seq<(String, V)>, k: Seq<char>)
    requires
        forall|i: int| 0 <= i < s.len() ==> (#[trigger] s[i]).0@ != k,
    ensures
        !str_entries_map(s).contains_key(k),
    decreases s.len(),
{
    if s.len() > 0 {
        assert(forall|i: int| 0 <= i < s.drop_last().len() ==> (#[trigger] s.drop_last()[i]).0@
            != k);
        lemma_str_entries_map_absent(s.drop_last(), k);
    }
}

proof fn lemma_str_entries_map_update<V: View>(s: Seq<(String, V)>, i: int, key: String, v: V)
    requires
        str_unique_keys(s),
        0 <= i < s.len(),
        key@ == s[i].0@,
    ensures
        str_entries_map(s.update(i, (key, v))) == str_entries_map(s).insert(s[i].0@, v@),
    decreases s.len(),
{
    let t = s.update(i, (key, v));
    if i == s.len() - 1 {
        assert(t.drop_last() =~= s.drop_last());
        assert(str_entries_map(t) =~= str_entries_map(s).insert(s[i].0@, v@));
    } else {
        assert(t.drop_last() =~= s.drop_last().update(i, (key, v)));
        assert(s.drop_last()[i] == s[i]);
        lemma_str_entries_map_update(s.drop_last(), i, key, v);
        assert(s.last().0@ != s[i].0@);
        assert(t.last() == s.last());
        assert(str_entries_map(t) =~= str_entries_map(s).insert(s[i].0@, v@));
    }
}

/// A name-to-value table with the override behavior of a map, stored in
/// insertion order.
pub struct StrMap<V> {
    entries: Vec<(String, V)>,
}

impl<V: View> View for StrMap<V> {
    type V = Map<Seq<char>, V::V>;

    closed spec fn view(&self) -> Map<Seq<char>, V::V> {
        str_entries_map(self.entries@)
    }
}

impl<V: View> StrMap<V> {
    /// Internal invariant: no name is listed twice.
    pub closed spec fn wf(&self) -> bool {
        str_unique_keys(self.entries@)
    }

    /// The stored values, in insertion order.
    pub closed spec fn values(&self) -> Seq<V> {
        self.entries@.map_values(|e: (String, V)| e.1)
    }

    pub fn new() -> (r: StrMap<V>)
        ensures
            r.wf(),
            r@ == Map::<Seq<char>, V::V>::empty(),
            r.values() == Seq::<V>::empty(),
    {
        let r = StrMap { entries: Vec::new() };
        proof {
            assert(r.values() =~= Seq::<V>::empty());
        }
        r
    }

    /// Binds `key` to `value`, replacing any earlier binding.
    pub fn insert(&mut self, key: String, value: V)
        requires
            old(self).wf(),
        ensures
            final(self).wf(),
            final(self)@ == old(self)@.insert(key@, value@),
            forall|x: V| #[trigger] final(self).values().contains(x) ==> old(
                self,
            ).values().contains(x) || x == value,
    {
        let ghost s0 = self.entries@;
        let n = self.entries.len();
        let mut i: usize = 0;
        while i < n
            invariant
                str_unique_keys(s0),
                s0 == old(self).entries@,
                self.entries@ == s0,
                n == s0.len(),
                i <= n,
                forall|j: int| 0 <= j < i ==> (#[trigger] s0[j]).0@ != key@,
            decreases n - i,
        {
            let hit = {
                let pair = &self.entries[i];
                pair.0 == key
            };
            if hit {
                proof {
                    lemma_str_entries_map_update(s0, i as int, key, value);
                }
                self.entries.set(i, (key, value));
                proof {
                    let t = self.entries@;
                    assert(t =~= s0.update(i as int, t[i as int]));
                    assert(t[i as int].0@ == s0[i as int].0@);
                    assert forall|i1: int, j1: int| 0 <= i1 < j1 < t.len() implies (
                    #[trigger] t[i1]).0@ != (#[trigger] t[j1]).0@ by {
                        assert(t[i1].0@ == s0[i1].0@);
                        assert(t[j1].0@ == s0[j1].0@);
                    }
                    assert forall|x: V| #[trigger] self.values().contains(x) implies old(
                        self,
                    ).values().contains(x) || x == value by {
                        let vi = choose|vi: int|
                            0 <= vi < self.values().len() && self.values()[vi] == x;
                        if vi != i {
                            assert(old(self).values()[vi] == x);
                            assert(old(self).values().contains(x));
                        }
                    }
                }
                return ;
            }
            i = i + 1;
        }
        proof {
            lemma_str_entries_map_absent(s0, key@);
        }
        self.entries.push((key, value));
        proof {
            let t = self.entries@;
            assert(t.drop_last() =~= s0);
            assert(t.last().0@ == key@);
            assert(str_entries_map(t) == str_entries_map(s0).insert(key@, t.last().1@));
            assert forall|i1: int, j1: int| 0 <= i1 < j1 < t.len() implies (#[trigger] t[i1]).0@
                != (#[trigger] t[j1]).0@ by {
                if j1 < t.len() - 1 {
                    assert(t[i1] == s0[i1]);
                    assert(t[j1] == s0[j1]);
                } else {
                    assert(t[i1] == s0[i1]);
                }
            }
            assert forall|x: V| #[trigger] self.values().contains(x) implies old(
                self,
            ).values().contains(x) || x == value by {
                let vi = choose|vi: int| 0 <= vi < self.values().len() && self.values()[vi] == x;
                if vi != t.len() - 1 {
                    assert(old(self).values()[vi] == x);
                    assert(old(self).values().contains(x));
                }
            }
        }
    }

    /// Looks a name up.
    pub fn get(&self, key: &str) -> (r: Option<&V>)
        requires
            self.wf(),
        ensures
            match r {
                Some(v) => self@.contains_key(key@) && v@ == self@[key@]
                    && self.values().contains(*v),
                None => !self@.contains_key(key@),
            },
    {
        let k = key.to_owned();
        let n = self.entries.len();
        let mut i: usize = 0;
        while i < n
            invariant
                self.wf(),
                k@ == key@,
                n == self.entries@.len(),
                i <= n,
                forall|j: int| 0 <= j < i ==> (#[trigger] self.entries@[j]).0@ != key@,
            decreases n - i,
        {
            if self.entries[i].0 == k {
                proof {
                    lemma_str_entries_map_get(self.entries@, i as int);
                    assert(self.values()[i as int] == self.entries@[i as int].1);
                }
                return Some(&self.entries[i].1);
            }
            i = i + 1;
        }
        proof {
            lemma_str_entries_map_absent(self.entries@, key@);
        }
        None
    }
}

// ---------------------------------------------------------------------------
// The grammar
// ---------------------------------------------------------------------------
/// One `name = value` argument: a letter-only name, blanks, `=`, blanks, and
/// a nonempty value running up to the next `,` or `;`. Yields the position
/// after the value, the name, and the value.
pub open spec fn spec_parse_arg(s: Seq<char>, i: int) -> Option<(int, Seq<char>, Seq<char>)> {
    let j1 = scan_alpha_from(s, i);
    if j1 == i {
        None
    } else {
        let j2 = scan_any_space_from(s, j1);
        if j2 < s.len() && s[j2] == '=' {
            let j3 = scan_any_space_from(s, j2 + 1);
            let j4 = scan_value_from(s, j3);
            if j4 == j3 {
                None
            } else {
                Some((j4, s.subrange(i, j1), s.subrange(j3, j4)))
            }
        } else {
            None
        }
    }
}

pub proof fn lemma_parse_arg_advances(s: Seq<char>, i: int)
    requires
        0 <= i <= s.len(),
    ensures
        spec_parse_arg(s, i) matches Some(t) ==> i < t.0 <= s.len(),
{
    lemma_scan_alpha_from(s, i);
    let j1 = scan_alpha_from(s, i);
    lemma_scan_any_space_from(s, j1);
    let j2 = scan_any_space_from(s, j1);
    if j2 < s.len() {
        lemma_scan_any_space_from(s, j2 + 1);
        let j3 = scan_any_space_from(s, j2 + 1);
        lemma_scan_value_from(s, j3);
    }
}

/// The arguments after the first one: separated by `,`, closed by `;`, with
/// only spaces and tabs around the punctuation. `i` stands right after a
/// parsed argument; a later argument with a name already seen overrides it.
pub open spec fn spec_parse_args(s: Seq<char>, i: int, acc: Map<Seq<char>, Seq<char>>) -> Option<
    (int, Map<Seq<char>, Seq<char>>),
>
    decreases s.len() - i,
    when 0 <= i <= s.len()
    via spec_parse_args_dec
{
    let k = scan_inline_space_from(s, i);
    if k < s.len() && s[k] == ';' {
        Some((k + 1, acc))
    } else if k < s.len() && s[k] == ',' {
        let k2 = scan_inline_space_from(s, k + 1);
        match spec_parse_arg(s, k2) {
            Some((j, n, v)) => spec_parse_args(s, j, acc.insert(n, v)),
            None => None,
        }
    } else {
        None
    }
}

#[via_fn]
proof fn spec_parse_args_dec(s: Seq<char>, i: int, acc: Map<Seq<char>, Seq<char>>) {
    lemma_scan_inline_space_from(s, i);
    let k = scan_inline_space_from(s, i);
    if k < s.len() && s[k] == ',' {
        lemma_scan_inline_space_from(s, k + 1);
        let k2 = scan_inline_space_from(s, k + 1);
        lemma_parse_arg_advances(s, k2);
    }
}

pub proof fn lemma_parse_args_advances(s: Seq<char>, i: int, acc: Map<Seq<char>, Seq<char>>)
    requires
        0 <= i <= s.len(),
    ensures
        spec_parse_args(s, i, acc) matches Some(t) ==> i < t.0 <= s.len(),
    decreases s.len() - i,
{
    lemma_scan_inline_space_from(s, i);
    let k = scan_inline_space_from(s, i);
    if k < s.len() && s[k] == ';' {
    } else if k < s.len() && s[k] == ',' {
        lemma_scan_inline_space_from(s, k + 1);
        let k2 = scan_inline_space_from(s, k + 1);
        lemma_parse_arg_advances(s, k2);
        match spec_parse_arg(s, k2) {
            Some((j, n, v)) => {
                lemma_parse_args_advances(s, j, acc.insert(n, v));
            },
            None => {},
        }
    }
}

/// One `name: arg, arg, ...;` item: an alphanumeric name, blanks, `:`,
/// blanks, and a comma-separated argument list closed by `;`. Yields the
/// position after the `;`, the name, and the arguments as a map.
pub open spec fn spec_parse_item(s: Seq<char>, i: int) -> Option<
    (int, Seq<char>, Map<Seq<char>, Seq<char>>),
> {
    let j1 = scan_alnum_from(s, i);
    if j1 == i {
        None
    } else {
        let j2 = scan_any_space_from(s, j1);
        if j2 < s.len() && s[j2] == ':' {
            let j3 = scan_any_space_from(s, j2 + 1);
            match spec_parse_arg(s, j3) {
                Some((j, n, v)) => match spec_parse_args(
                    s,
                    j,
                    Map::empty().insert(n, v),
                ) {
                    Some((j5, m)) => Some((j5, s.subrange(i, j1), m)),
                    None => None,
                },
                None => None,
            }
        } else {
            None
        }
    }
}

pub proof fn lemma_parse_item_advances(s: Seq<char>, i: int)
    requires
        0 <= i <= s.len(),
    ensures
        spec_parse_item(s, i) matches Some(t) ==> i < t.0 <= s.len(),
{
    lemma_scan_alnum_from(s, i);
    let j1 = scan_alnum_from(s, i);
    lemma_scan_any_space_from(s, j1);
    let j2 = scan_any_space_from(s, j1);
    if j2 < s.len() {
        lemma_scan_any_space_from(s, j2 + 1);
        let j3 = scan_any_space_from(s, j2 + 1);
        lemma_parse_arg_advances(s, j3);
        match spec_parse_arg(s, j3) {
            Some((j, n, v)) => {
                lemma_parse_args_advances(s, j, Map::empty().insert(n, v));
            },
            None => {},
        }
    }
}

/// The items after the first one: separated by `;`, closed by `}`, with only
/// spaces and tabs around the punctuation.
pub open spec fn spec_parse_items(
    s: Seq<char>,
    i: int,
    acc: Map<Seq<char>, Map<Seq<char>, Seq<char>>>,
) -> Option<(int, Map<Seq<char>, Map<Seq<char>, Seq<char>>>)>
    decreases s.len() - i,
    when 0 <= i <= s.len()
    via spec_parse_items_dec
{
    let k = scan_inline_space_from(s, i);
    if k < s.len() && s[k] == '}' {
        Some((k + 1, acc))
    } else if k < s.len() && s[k] == ';' {
        let k2 = scan_inline_space_from(s, k + 1);
        match spec_parse_item(s, k2) {
            Some((j, n, m)) => spec_parse_items(s, j, acc.insert(n, m)),
            None => None,
        }
    } else {
        None
    }
}

#[via_fn]
proof fn spec_parse_items_dec(s: Seq<char>, i: int, acc: Map<Seq<char>, Map<Seq<char>, Seq<char>>>) {
    lemma_scan_inline_space_from(s, i);
    let k = scan_inline_space_from(s, i);
    if k < s.len() && s[k] == ';' {
        lemma_scan_inline_space_from(s, k + 1);
        let k2 = scan_inline_space_from(s, k + 1);
        lemma_parse_item_advances(s, k2);
    }
}

pub proof fn lemma_parse_items_advances(
    s: Seq<char>,
    i: int,
    acc: Map<Seq<char>, Map<Seq<char>, Seq<char>>>,
)
    requires
        0 <= i <= s.len(),
    ensures
        spec_parse_items(s, i, acc) matches Some(t) ==> i < t.0 <= s.len(),
    decreases s.len() - i,
{
    lemma_scan_inline_space_from(s, i);
    let k = scan_inline_space_from(s, i);
    if k < s.len() && s[k] == '}' {
    } else if k < s.len() && s[k] == ';' {
        lemma_scan_inline_space_from(s, k + 1);
        let k2 = scan_inline_space_from(s, k + 1);
        lemma_parse_item_advances(s, k2);
        match spec_parse_item(s, k2) {
            Some((j, n, m)) => {
                lemma_parse_items_advances(s, j, acc.insert(n, m));
            },
            None => {},
        }
    }
}

/// One `name { item ... }` category: an alphanumeric name, blanks, `{`,
/// blanks, and a semicolon-separated item list closed by `}`.
pub open spec fn spec_parse_category(s: Seq<char>, i: int) -> Option<
    (int, Seq<char>, Map<Seq<char>, Map<Seq<char>, Seq<char>>>),
> {
    let j1 = scan_alnum_from(s, i);
    if j1 == i {
        None
    } else {
        let j2 = scan_any_space_from(s, j1);
        if j2 < s.len() && s[j2] == '{' {
            let j3 = scan_any_space_from(s, j2 + 1);
            match spec_parse_item(s, j3) {
                Some((j, n, m)) => match spec_parse_items(
                    s,
                    j,
                    Map::empty().insert(n, m),
                ) {
                    Some((j5, ms)) => Some((j5, s.subrange(i, j1), ms)),
                    None => None,
                },
                None => None,
            }
        } else {
            None
        }
    }
}

pub proof fn lemma_parse_category_advances(s: Seq<char>, i: int)
    requires
        0 <= i <= s.len(),
    ensures
        spec_parse_category(s, i) matches Some(t) ==> i < t.0 <= s.len(),
{
    lemma_scan_alnum_from(s, i);
    let j1 = scan_alnum_from(s, i);
    lemma_scan_any_space_from(s, j1);
    let j2 = scan_any_space_from(s, j1);
    if j2 < s.len() {
        lemma_scan_any_space_from(s, j2 + 1);
        let j3 = scan_any_space_from(s, j2 + 1);
        lemma_parse_item_advances(s, j3);
        match spec_parse_item(s, j3) {
            Some((j, n, m)) => {
                lemma_parse_items_advances(s, j, Map::empty().insert(n, m));
            },
            None => {},
        }
    }
}

/// As many categories as parse, one after the other: the whole file. Never
/// fails; it stops at the first input that is not a category and reports the
/// position reached.
pub open spec fn spec_parse_linker(
    s: Seq<char>,
    i: int,
    acc: Map<Seq<char>, Map<Seq<char>, Map<Seq<char>, Seq<char>>>>,
) -> (int, Map<Seq<char>, Map<Seq<char>, Map<Seq<char>, Seq<char>>>>)
    decreases s.len() - i,
    when 0 <= i <= s.len()
    via spec_parse_linker_dec
{
    match spec_parse_category(s, i) {
        Some((j, n, m)) => spec_parse_linker(s, j, acc.insert(n, m)),
        None => (i, acc),
    }
}

#[via_fn]
proof fn spec_parse_linker_dec(
    s: Seq<char>,
    i: int,
    acc: Map<Seq<char>, Map<Seq<char>, Map<Seq<char>, Seq<char>>>>,
) {
    lemma_parse_category_advances(s, i);
}

// ---------------------------------------------------------------------------
// Parsed values
// ---------------------------------------------------------------------------
/// One configuration item: its named arguments.
pub struct Item {
    arguments: StrMap<String>,
}

impl View for Item {
    type V = Map<Seq<char>, Seq<char>>;

    closed spec fn view(&self) -> Map<Seq<char>, Seq<char>> {
        self.arguments@
    }
}

impl Item {
    pub closed spec fn wf(&self) -> bool {
        self.arguments.wf()
    }

    /// The value of one named argument.
    pub fn get(&self, name: &str) -> (r: Option<&String>)
        requires
            self.wf(),
        ensures
            match r {
                Some(v) => self@.contains_key(name@) && v@ == self@[name@],
                None => !self@.contains_key(name@),
            },
    {
        self.arguments.get(name)
    }
}

/// One configuration category: its named items.
pub struct Category {
    items: StrMap<Item>,
}

impl View for Category {
    type V = Map<Seq<char>, Map<Seq<char>, Seq<char>>>;

    closed spec fn view(&self) -> Map<Seq<char>, Map<Seq<char>, Seq<char>>> {
        self.items@
    }
}

impl Category {
    pub closed spec fn wf(&self) -> bool {
        &&& self.items.wf()
        &&& forall|x: Item| #[trigger] self.items.values().contains(x) ==> x.wf()
    }

    /// One named item.
    pub fn get(&self, name: &str) -> (r: Option<&Item>)
        requires
            self.wf(),
        ensures
            match r {
                Some(v) => self@.contains_key(name@) && v@ == self@[name@] && v.wf(),
                None => !self@.contains_key(name@),
            },
    {
        self.items.get(name)
    }
}

/// A parsed linker-configuration file: its named categories.
pub struct LinkerFile {
    categories: StrMap<Category>,
}

impl View for LinkerFile {
    type V = Map<Seq<char>, Map<Seq<char>, Map<Seq<char>, Seq<char>>>>;

    closed spec fn view(&self) -> Map<Seq<char>, Map<Seq<char>, Map<Seq<char>, Seq<char>>>> {
        self.categories@
    }
}

impl LinkerFile {
    pub closed spec fn wf(&self) -> bool {
        &&& self.categories.wf()
        &&& forall|x: Category| #[trigger] self.categories.values().contains(x) ==> x.wf()
    }

    /// One named category.
    pub fn get(&self, name: &str) -> (r: Option<&Category>)
        requires
            self.wf(),
        ensures
            match r {
                Some(v) => self@.contains_key(name@) && v@ == self@[name@] && v.wf(),
                None => !self@.contains_key(name@),
            },
    {
        self.categories.get(name)
    }
}

/// What can go wrong reading a linker configuration: the input does not
/// match the grammar at the named construct.
#[derive(Debug)]
pub enum ReadLinkerFileError {
    ParseError(String),
}

impl ReadLinkerFileError {
    /// The grammar construct that failed to parse.
    pub fn context(&self) -> (r: &String)
        ensures
            self matches ReadLinkerFileError::ParseError(m) && r@ == m@,
    {
        match self {
            ReadLinkerFileError::ParseError(m) => m,
        }
    }
}

// ---------------------------------------------------------------------------
// The executable parser
// ---------------------------------------------------------------------------
fn parse_arg_at(v: &Vec<char>, i: usize) -> (r: Option<(usize, String, String)>)
    requires
        i <= v@.len(),
    ensures
        match spec_parse_arg(v@, i as int) {
            Some(t) => (r matches Some(e) && e.0 == t.0 && e.1@ == t.1 && e.2@ == t.2),
            None => r is None,
        },
{
    let j1 = scan_alpha(v, i);
    if j1 == i {
        return None;
    }
    let j2 = scan_any_space(v, j1);
    if j2 < v.len() && v[j2] == '=' {
        let j3 = scan_any_space(v, j2 + 1);
        let j4 = scan_value(v, j3);
        if j4 == j3 {
            None
        } else {
            let name = chars_to_string(v, i, j1);
            let value = chars_to_string(v, j3, j4);
            Some((j4, name, value))
        }
    } else {
        None
    }
}

fn parse_args_at(v: &Vec<char>, i: usize, args: &mut StrMap<String>) -> (r: Option<usize>)
    requires
        i <= v@.len(),
        old(args).wf(),
    ensures
        final(args).wf(),
        match spec_parse_args(v@, i as int, old(args)@) {
            Some(t) => (r matches Some(j) && j == t.0 && final(args)@ == t.1),
            None => r is None,
        },
{
    let mut cur = i;
    loop
        invariant
            cur <= v@.len(),
            args.wf(),
            spec_parse_args(v@, cur as int, args@) == spec_parse_args(v@, i as int, old(args)@),
        decreases v@.len() - cur,
    {
        let k = scan_inline_space(v, cur);
        if k < v.len() && v[k] == ';' {
            return Some(k + 1);
        } else if k < v.len() && v[k] == ',' {
            let k2 = scan_inline_space(v, k + 1);
            match parse_arg_at(v, k2) {
                Some((j, name, value)) => {
                    proof {
                        lemma_parse_arg_advances(v@, k2 as int);
                        lemma_scan_inline_space_from(v@, cur as int);
                        lemma_scan_inline_space_from(v@, k as int + 1);
                    }
                    args.insert(name, value);
                    cur = j;
                },
                None => {
                    return None;
                },
            }
        } else {
            return None;
        }
    }
}

fn parse_item_at(v: &Vec<char>, i: usize) -> (r: Option<(usize, String, Item)>)
    requires
        i <= v@.len(),
    ensures
        match spec_parse_item(v@, i as int) {
            Some(t) => (r matches Some(e) && e.0 == t.0 && e.1@ == t.1 && e.2@ == t.2 && e.2.wf()),
            None => r is None,
        },
{
    let j1 = scan_alnum(v, i);
    if j1 == i {
        return None;
    }
    let j2 = scan_any_space(v, j1);
    if j2 < v.len() && v[j2] == ':' {
        let j3 = scan_any_space(v, j2 + 1);
        match parse_arg_at(v, j3) {
            Some((j, name, value)) => {
                proof {
                    lemma_parse_arg_advances(v@, j3 as int);
                }
                let mut args: StrMap<String> = StrMap::new();
                args.insert(name, value);
                match parse_args_at(v, j, &mut args) {
                    Some(j5) => {
                        let item_name = chars_to_string(v, i, j1);
                        Some((j5, item_name, Item { arguments: args }))
                    },
                    None => None,
                }
            },
            None => None,
        }
    } else {
        None
    }
}

fn parse_items_at(v: &Vec<char>, i: usize, items: &mut StrMap<Item>) -> (r: Option<usize>)
    requires
        i <= v@.len(),
        old(items).wf(),
        forall|x: Item| #[trigger] old(items).values().contains(x) ==> x.wf(),
    ensures
        final(items).wf(),
        forall|x: Item| #[trigger] final(items).values().contains(x) ==> x.wf(),
        match spec_parse_items(v@, i as int, old(items)@) {
            Some(t) => (r matches Some(j) && j == t.0 && final(items)@ == t.1),
            None => r is None,
        },
{
    let mut cur = i;
    loop
        invariant
            cur <= v@.len(),
            items.wf(),
            forall|x: Item| #[trigger] items.values().contains(x) ==> x.wf(),
            spec_parse_items(v@, cur as int, items@) == spec_parse_items(
                v@,
                i as int,
                old(items)@,
            ),
        decreases v@.len() - cur,
    {
        let k = scan_inline_space(v, cur);
        if k < v.len() && v[k] == '}' {
            return Some(k + 1);
        } else if k < v.len() && v[k] == ';' {
            let k2 = scan_inline_space(v, k + 1);
            match parse_item_at(v, k2) {
                Some((j, name, item)) => {
                    proof {
                        lemma_parse_item_advances(v@, k2 as int);
                        lemma_scan_inline_space_from(v@, cur as int);
                        lemma_scan_inline_space_from(v@, k as int + 1);
                    }
                    items.insert(name, item);
                    cur = j;
                },
                None => {
                    return None;
                },
            }
        } else {
            return None;
        }
    }
}

fn parse_category_at(v: &Vec<char>, i: usize) -> (r: Option<(usize, String, Category)>)
    requires
        i <= v@.len(),
    ensures
        match spec_parse_category(v@, i as int) {
            Some(t) => (r matches Some(e) && e.0 == t.0 && e.1@ == t.1 && e.2@ == t.2 && e.2.wf()),
            None => r is None,
        },
{
    let j1 = scan_alnum(v, i);
    if j1 == i {
        return None;
    }
    let j2 = scan_any_space(v, j1);
    if j2 < v.len() && v[j2] == '{' {
        let j3 = scan_any_space(v, j2 + 1);
        match parse_item_at(v, j3) {
            Some((j, name, item)) => {
                proof {
                    lemma_parse_item_advances(v@, j3 as int);
                }
                let mut items: StrMap<Item> = StrMap::new();
                items.insert(name, item);
                match parse_items_at(v, j, &mut items) {
                    Some(j5) => {
                        let cat_name = chars_to_string(v, i, j1);
                        Some((j5, cat_name, Category { items }))
                    },
                    None => None,
                }
            },
            None => None,
        }
    } else {
        None
    }
}

// ---------------------------------------------------------------------------
// The public surface
// ---------------------------------------------------------------------------
/// Takes the argument-value characters off the front of the input: everything
/// up to the next `,` or `;`. An input with nothing to take is refused.
/// Yields the rest of the input and the taken text.
pub fn not_arg_end(input: &str) -> (r: Result<(String, String), ReadLinkerFileError>)
    ensures
        ({
            let j = scan_value_from(input@, 0);
            &&& j == 0 ==> r is Err
            &&& j > 0 ==> (r matches Ok(t) && t.0@ == input@.subrange(j, input@.len() as int)
                && t.1@ == input@.subrange(0, j))
        }),
{
    let v = str_to_chars(input);
    let j = scan_value(&v, 0);
    if j == 0 {
        return Err(ReadLinkerFileError::ParseError(String::from_str("not_arg_end")));
    }
    let taken = chars_to_string(&v, 0, j);
    let rest = chars_to_string(&v, j, v.len());
    Ok((rest, taken))
}

/// Parses one `name = value` argument off the front of the input. Yields the
/// rest of the input, the name, and the value.
pub fn arg(input: &str) -> (r: Result<(String, (String, String)), ReadLinkerFileError>)
    ensures
        match spec_parse_arg(input@, 0) {
            Some(t) => (r matches Ok(e) && e.0@ == input@.subrange(t.0, input@.len() as int)
                && e.1.0@ == t.1 && e.1.1@ == t.2),
            None => (r matches Err(ReadLinkerFileError::ParseError(m)) && m@ == "arg"@),
        },
{
    let v = str_to_chars(input);
    proof {
        lemma_parse_arg_advances(v@, 0);
    }
    match parse_arg_at(&v, 0) {
        Some((j, name, value)) => {
            let rest = chars_to_string(&v, j, v.len());
            Ok((rest, (name, value)))
        },
        None => Err(ReadLinkerFileError::ParseError(String::from_str("arg"))),
    }
}

/// Parses one `name: arguments;` item off the front of the input. Yields the
/// rest of the input, the item's name, and the item.
pub fn item(input: &str) -> (r: Result<(String, (String, Item)), ReadLinkerFileError>)
    ensures
        match spec_parse_item(input@, 0) {
            Some(t) => (r matches Ok(e) && e.0@ == input@.subrange(t.0, input@.len() as int)
                && e.1.0@ == t.1 && e.1.1@ == t.2 && e.1.1.wf()),
            None => (r matches Err(ReadLinkerFileError::ParseError(m)) && m@ == "item"@),
        },
{
    let v = str_to_chars(input);
    proof {
        lemma_parse_item_advances(v@, 0);
    }
    match parse_item_at(&v, 0) {
        Some((j, name, it)) => {
            let rest = chars_to_string(&v, j, v.len());
            Ok((rest, (name, it)))
        },
        None => Err(ReadLinkerFileError::ParseError(String::from_str("item"))),
    }
}

/// Parses one `name { items }` category off the front of the input. Yields
/// the rest of the input, the category's name, and the category.
pub fn category(input: &str) -> (r: Result<(String, (String, Category)), ReadLinkerFileError>)
    ensures
        match spec_parse_category(input@, 0) {
            Some(t) => (r matches Ok(e) && e.0@ == input@.subrange(t.0, input@.len() as int)
                && e.1.0@ == t.1 && e.1.1@ == t.2 && e.1.1.wf()),
            None => (r matches Err(ReadLinkerFileError::ParseError(m)) && m@ == "category"@),
        },
{
    let v = str_to_chars(input);
    proof {
        lemma_parse_category_advances(v@, 0);
    }
    match parse_category_at(&v, 0) {
        Some((j, name, cat)) => {
            let rest = chars_to_string(&v, j, v.len());
            Ok((rest, (name, cat)))
        },
        None => Err(ReadLinkerFileError::ParseError(String::from_str("category"))),
    }
}

/// Parses a whole linker-configuration text: as many categories as the input
/// opens with. Yields the unparsed rest and the file.
pub fn read_linker_from_string(input: &str) -> (r: Result<
    (String, LinkerFile),
    ReadLinkerFileError,
>)
    ensures
        ({
            let t = spec_parse_linker(input@, 0, Map::empty());
            r matches Ok(e) && e.0@ == input@.subrange(t.0, input@.len() as int) && e.1@ == t.1
                && e.1.wf()
        }),
{
    let v = str_to_chars(input);
    let mut categories: StrMap<Category> = StrMap::new();
    let mut cur: usize = 0;
    loop
        invariant
            cur <= v@.len(),
            v@ == input@,
            categories.wf(),
            forall|x: Category| #[trigger] categories.values().contains(x) ==> x.wf(),
            spec_parse_linker(v@, cur as int, categories@) == spec_parse_linker(
                v@,
                0,
                Map::empty(),
            ),
        decreases v@.len() - cur,
    {
        match parse_category_at(&v, cur) {
            Some((j, name, cat)) => {
                proof {
                    lemma_parse_category_advances(v@, cur as int);
                }
                categories.insert(name, cat);
                cur = j;
            },
            None => {
                let rest = chars_to_string(&v, cur, v.len());
                return Ok((rest, LinkerFile { categories }));
            },
        }
    }
}

} // verus!
