//! A table of named string values (the shell's variables and its aliases).

use vstd::prelude::*;
use crate::text::append_str;


verus! {

broadcast use vstd::string::group_string_axioms;

/// The views of a sequence of name/value pairs.
pub open spec fn pair_views(e: Seq<(String, String)>) -> Seq<(Seq<char>, Seq<char>)> {
    e.map_values(|p: (String, String)| (p.0@, p.1@))
}

/// The names of a sequence of pairs, in order.
pub open spec fn names_of(p: Seq<(Seq<char>, Seq<char>)>) -> Seq<Seq<char>> {
    p.map_values(|q: (Seq<char>, Seq<char>)| q.0)
}

/// Some position of `p` that holds name `k`.
pub open spec fn index_of_name(p: Seq<(Seq<char>, Seq<char>)>, k: Seq<char>) -> int {
    choose|i: int| 0 <= i < p.len() && p[i].0 == k
}

/// The map that a sequence of pairs with distinct names stands for.
pub open spec fn pairs_to_map(p: Seq<(Seq<char>, Seq<char>)>) -> Map<Seq<char>, Seq<char>> {
    Map::new(
        |k: Seq<char>| exists|i: int| 0 <= i < p.len() && p[i].0 == k,
        |k: Seq<char>| p[index_of_name(p, k)].1,
    )
}

/// No name occurs twice.
pub open spec fn distinct_names(p: Seq<(Seq<char>, Seq<char>)>) -> bool {
    forall|i: int, j: int| 0 <= i < p.len() && 0 <= j < p.len() && i != j ==> p[i].0 != p[j].0
}

pub proof fn lemma_value_at(p: Seq<(Seq<char>, Seq<char>)>, i: int)
    requires
        distinct_names(p),
        0 <= i < p.len(),
    ensures
        pairs_to_map(p).contains_key(p[i].0),
        pairs_to_map(p)[p[i].0] == p[i].1,
{
    let k = p[i].0;
    assert(exists|j: int| 0 <= j < p.len() && p[j].0 == k);
    let j = index_of_name(p, k);
    assert(p[j].0 == k);
}

/// What `{:?}` writes for a string: the standard library's quoted, escaped rendering.
pub uninterp spec fn debug_quoted(s: Seq<char>) -> Seq<char>;

/// Calls `<str as Debug>::fmt` through `format!("{:?}")`; the contract claims only that the
/// result is the fixed function `debug_quoted` of the text (the escaping rules are std's).
#[verifier::external_body]
fn debug_string(s: &str) -> (r: String)
    ensures
        r@ == debug_quoted(s@),
{
    format!("{:?}", s)
}

/// One line of the pretty (`{:#?}`) rendering of a map entry.
pub open spec fn render_entry(k: Seq<char>, v: Seq<char>) -> Seq<char> {
    "    "@ + debug_quoted(k) + ": "@ + debug_quoted(v) + ",\n"@
}

/// The entry lines of a pretty map rendering.
pub open spec fn render_entries(p: Seq<(Seq<char>, Seq<char>)>) -> Seq<char>
    decreases p.len(),
{
    if p.len() == 0 {
        seq![]
    } else {
        render_entries(p.drop_last()) + render_entry(p.last().0, p.last().1)
    }
}

/// The pretty (`{:#?}`) rendering of a map whose entries are walked in the order `p`.
pub open spec fn render_map(p: Seq<(Seq<char>, Seq<char>)>) -> Seq<char> {
    if p.len() == 0 {
        "{}"@
    } else {
        "{\n"@ + render_entries(p) + "}"@
    }
}

/// A table of names bound to string values, each name at most once, kept in the order in which
/// the names were first bound.
pub struct VarTable {
    entries: Vec<(String, String)>,
}

impl View for VarTable {
    type V = Map<Seq<char>, Seq<char>>;

    closed spec fn view(&self) -> Map<Seq<char>, Seq<char>> {
        pairs_to_map(pair_views(self.entries@))
    }
}

impl VarTable {
    #[verifier::type_invariant]
    closed spec fn well_formed(self) -> bool {
        distinct_names(pair_views(self.entries@))
    }

    /// The bindings in the order in which their names were first bound.
    pub closed spec fn bindings(&self) -> Seq<(Seq<char>, Seq<char>)> {
        pair_views(self.entries@)
    }

    /// An empty table.
    pub fn new() -> (t: VarTable)
        ensures
            t@ == Map::<Seq<char>, Seq<char>>::empty(),
            t.bindings() == Seq::<(Seq<char>, Seq<char>)>::empty(),
    {
        let t = VarTable { entries: Vec::new() };
        assert(t@ =~= Map::<Seq<char>, Seq<char>>::empty());
        assert(t.bindings() =~= Seq::<(Seq<char>, Seq<char>)>::empty());
        t
    }

    /// The number of bindings.
    pub fn len(&self) -> (n: usize)
        ensures
            n == self.bindings().len(),
    {
        self.entries.len()
    }

    /// The position of name `k`, if it is bound.
    fn position(&self, k: &str) -> (r: Option<usize>)
        ensures
            r matches Some(i) ==> i < self.bindings().len() && self.bindings()[i as int].0 == k@,
            r is None ==> !self@.contains_key(k@),
    {
        let key = k.to_string();
        let mut i: usize = 0;
        while i < self.entries.len()
            invariant
                i <= self.entries.len(),
                key@ == k@,
                forall|j: int| 0 <= j < i ==> self.bindings()[j].0 != k@,
            decreases self.entries.len() - i,
        {
            if self.entries[i].0 == key {
                return Some(i);
            }
            i = i + 1;
        }
        proof {
            if self@.contains_key(k@) {
                let p = pair_views(self.entries@);
                let w = choose|j: int| 0 <= j < p.len() && p[j].0 == k@;
                assert(self.bindings()[w].0 == k@);
            }
        }
        None
    }

    /// Whether name `k` is bound.
    pub fn contains_key(&self, k: &str) -> (b: bool)
        ensures
            b == self@.contains_key(k@),
    {
        match self.position(k) {
            Some(i) => {
                proof {
                    use_type_invariant(self);
                    lemma_value_at(self.bindings(), i as int);
                }
                true
            },
            None => false,
        }
    }

    /// The value bound to name `k`.
    pub fn get(&self, k: &str) -> (r: Option<&String>)
        ensures
            r matches Some(v) ==> self@.contains_key(k@) && v@ == self@[k@],
            r is None ==> !self@.contains_key(k@),
    {
        match self.position(k) {
            Some(i) => {
                proof {
                    use_type_invariant(self);
                    lemma_value_at(self.bindings(), i as int);
                }
                Some(&self.entries[i].1)
            },
            None => None,
        }
    }

    /// Binds name `k` to `v`. A new name goes after all others; a bound name keeps its place.
    pub fn insert(&mut self, k: String, v: String)
        ensures
            final(self)@ == old(self)@.insert(k@, v@),
            old(self)@.contains_key(k@) ==> names_of(final(self).bindings()) == names_of(
                old(self).bindings(),
            ),
            !old(self)@.contains_key(k@) ==> final(self).bindings() == old(self).bindings().push(
                (k@, v@),
            ),
    {
        proof {
            use_type_invariant(&*self);
        }
        let ghost p = self.bindings();
        let ghost old_map = self@;
        match self.position(k.as_str()) {
            Some(i) => {
                let ghost kv = k@;
                let mut entries = Vec::new();
                std::mem::swap(&mut entries, &mut self.entries);
                entries.set(i, (k, v));
                let ghost p2 = pair_views(entries@);
                assert(p2 =~= p.update(i as int, (kv, v@)));
                assert(distinct_names(p2));
                proof {
                    lemma_value_at(p2, i as int);
                    assert forall|q: Seq<char>|
                        #[trigger] pairs_to_map(p2).contains_key(q) == old_map.insert(
                            kv,
                            v@,
                        ).contains_key(q) && (pairs_to_map(p2).contains_key(q) ==> pairs_to_map(
                            p2,
                        )[q] == old_map.insert(kv, v@)[q]) by {
                        if q != kv {
                            if pairs_to_map(p2).contains_key(q) {
                                let j = index_of_name(p2, q);
                                assert(p[j].0 == q);
                                lemma_value_at(p, j);
                                lemma_value_at(p2, j);
                            }
                            if old_map.contains_key(q) {
                                let j = index_of_name(p, q);
                                assert(p2[j].0 == q);
                            }
                        }
                    }
                    assert(pairs_to_map(p2) =~= old_map.insert(kv, v@));
                    assert(names_of(p2) =~= names_of(p));
                }
                self.entries = entries;
            },
            None => {
                let ghost kv = k@;
                let mut entries = Vec::new();
                std::mem::swap(&mut entries, &mut self.entries);
                entries.push((k, v));
                let ghost p2 = pair_views(entries@);
                assert(p2 =~= p.push((kv, v@)));
                assert(distinct_names(p2)) by {
                    assert forall|a: int, b: int|
                        0 <= a < p2.len() && 0 <= b < p2.len() && a != b implies p2[a].0
                        != p2[b].0 by {
                        if a == p.len() as int && p[b].0 == kv {
                            assert(old_map.contains_key(kv));
                        }
                        if b == p.len() as int && p[a].0 == kv {
                            assert(old_map.contains_key(kv));
                        }
                    }
                }
                proof {
                    lemma_value_at(p2, p.len() as int);
                    assert forall|q: Seq<char>|
                        #[trigger] pairs_to_map(p2).contains_key(q) == old_map.insert(
                            kv,
                            v@,
                        ).contains_key(q) && (pairs_to_map(p2).contains_key(q) ==> pairs_to_map(
                            p2,
                        )[q] == old_map.insert(kv, v@)[q]) by {
                        if q != kv {
                            if pairs_to_map(p2).contains_key(q) {
                                let j = index_of_name(p2, q);
                                assert(p[j].0 == q);
                                lemma_value_at(p, j);
                                lemma_value_at(p2, j);
                            }
                            if old_map.contains_key(q) {
                                let j = index_of_name(p, q);
                                assert(p2[j].0 == q);
                            }
                        }
                    }
                    assert(pairs_to_map(p2) =~= old_map.insert(kv, v@));
                }
                self.entries = entries;
            },
        }
    }

    /// Removes the binding of name `k`, if any; the others keep their order.
    pub fn remove(&mut self, k: &str)
        ensures
            final(self)@ == old(self)@.remove(k@),
    {
        proof {
            use_type_invariant(&*self);
        }
        let ghost p = self.bindings();
        let ghost old_map = self@;
        match self.position(k) {
            Some(i) => {
                let mut entries = Vec::new();
                std::mem::swap(&mut entries, &mut self.entries);
                entries.remove(i);
                let ghost p2 = pair_views(entries@);
                assert(p2 =~= p.remove(i as int));
                assert(distinct_names(p2)) by {
                    assert forall|a: int, b: int|
                        0 <= a < p2.len() && 0 <= b < p2.len() && a != b implies p2[a].0
                        != p2[b].0 by {
                        let a1 = if a < i { a } else { a + 1 };
                        let b1 = if b < i { b } else { b + 1 };
                        assert(p2[a] == p[a1]);
                        assert(p2[b] == p[b1]);
                    }
                }
                proof {
                    assert forall|q: Seq<char>|
                        #[trigger] pairs_to_map(p2).contains_key(q) == old_map.remove(
                            k@,
                        ).contains_key(q) && (pairs_to_map(p2).contains_key(q) ==> pairs_to_map(
                            p2,
                        )[q] == old_map.remove(k@)[q]) by {
                        if pairs_to_map(p2).contains_key(q) {
                            let j = index_of_name(p2, q);
                            let j1 = if j < i { j } else { j + 1 };
                            assert(p2[j] == p[j1]);
                            lemma_value_at(p, j1);
                            lemma_value_at(p2, j);
                        }
                        if old_map.contains_key(q) && q != k@ {
                            let j = index_of_name(p, q);
                            assert(j != i);
                            let j2 = if j < i { j } else { j - 1 };
                            assert(p2[j2] == p[j]);
                        }
                    }
                    assert(pairs_to_map(p2) =~= old_map.remove(k@));
                }
                self.entries = entries;
            },
            None => {
                assert(old_map.remove(k@) =~= old_map);
            },
        }
    }

    /// The pretty (`{:#?}`) rendering of the table, entries in binding order.
    pub fn render(&self) -> (r: String)
        ensures
            r@ == render_map(self.bindings()),
    {
        if self.entries.len() == 0 {
            let mut r = String::new();
            append_str(&mut r, "{}");
            return r;
        }
        let mut r = String::new();
        append_str(&mut r, "{\n");
        let ghost start = r@;
        let mut i: usize = 0;
        while i < self.entries.len()
            invariant
                i <= self.entries.len(),
                start == "{\n"@,
                r@ == start + render_entries(self.bindings().take(i as int)),
            decreases self.entries.len() - i,
        {
            append_str(&mut r, "    ");
            let k = debug_string(self.entries[i].0.as_str());
            append_str(&mut r, k.as_str());
            append_str(&mut r, ": ");
            let v = debug_string(self.entries[i].1.as_str());
            append_str(&mut r, v.as_str());
            append_str(&mut r, ",\n");
            i = i + 1;
            assert(self.bindings().take(i as int).drop_last() =~= self.bindings().take(i - 1));
        }
        assert(self.bindings().take(self.entries.len() as int) =~= self.bindings());
        append_str(&mut r, "}");
        r
    }

    /// A copy of the table.
    pub fn duplicate(&self) -> (t: VarTable)
        ensures
            t@ == self@,
            t.bindings() == self.bindings(),
    {
        proof {
            use_type_invariant(self);
        }
        let mut entries: Vec<(String, String)> = Vec::new();
        let mut i: usize = 0;
        while i < self.entries.len()
            invariant
                i <= self.entries.len(),
                entries@.len() == i,
                pair_views(entries@) == pair_views(self.entries@).take(i as int),
            decreases self.entries.len() - i,
        {
            let k = self.entries[i].0.clone();
            let v = self.entries[i].1.clone();
            assert(k@ == self.entries@[i as int].0@);
            assert(v@ == self.entries@[i as int].1@);
            let ghost before = entries@;
            entries.push((k, v));
            i = i + 1;
            assert(pair_views(entries@) =~= pair_views(self.entries@).take(i as int));
        }
        assert(pair_views(self.entries@).take(self.entries.len() as int) =~= pair_views(
            self.entries@,
        ));
        VarTable { entries }
    }

    /// The value bound to name `k`, as a string slice.
    pub fn lookup(&self, k: &str) -> (r: Option<&str>)
        ensures
            r matches Some(v) ==> self@.contains_key(k@) && v@ == self@[k@],
            r is None ==> !self@.contains_key(k@),
    {
        match self.get(k) {
            Some(v) => Some(v.as_str()),
            None => None,
        }
    }
}

} // verus!
