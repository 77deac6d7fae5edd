//! Folding a route into the table a router keyed by path reads: one group per spelled path, in the
//! order paths sort in, each holding the method and entry of every endpoint at that path, in
//! declaration order.
//!
//! A router that states one method router per path needs the endpoints at one path together; an
//! endpoint that selects no method answers whatever the others at its path do not.

use crate::http::method::HttpMethod;
use crate::http::path::{spelled_path, PathSyntax};
use crate::http::route::{selector_method, selector_segments, DirectRoute, PartView};
use vstd::prelude::*;
use vstd::string::*;

verus! {

/// Whether one text sorts before another: at the first character they differ in, the smaller one
/// first; where one is a prefix of the other, the shorter one first.
pub open spec fn text_less(a: Seq<char>, b: Seq<char>) -> bool
    decreases a.len(),
{
    if a.len() == 0 {
        b.len() > 0
    } else if b.len() == 0 {
        false
    } else if a[0] != b[0] {
        (a[0] as int) < (b[0] as int)
    } else {
        text_less(a.drop_first(), b.drop_first())
    }
}

/// No text sorts before itself.
pub proof fn lemma_text_less_irreflexive(a: Seq<char>)
    ensures
        !text_less(a, a),
    decreases a.len(),
{
    if a.len() > 0 {
        lemma_text_less_irreflexive(a.drop_first());
    }
}

/// Of two different texts, one sorts before the other.
pub proof fn lemma_text_less_total(a: Seq<char>, b: Seq<char>)
    requires
        a != b,
    ensures
        text_less(a, b) || text_less(b, a),
    decreases a.len(),
{
    if a.len() > 0 && b.len() > 0 && a[0] == b[0] {
        if a.drop_first() == b.drop_first() {
            assert(a =~= seq![a[0]] + a.drop_first());
            assert(b =~= seq![b[0]] + b.drop_first());
        }
        lemma_text_less_total(a.drop_first(), b.drop_first());
    } else if a.len() == 0 && b.len() == 0 {
        assert(a =~= b);
    }
}

/// Sorting before is transitive.
pub proof fn lemma_text_less_transitive(a: Seq<char>, b: Seq<char>, c: Seq<char>)
    requires
        text_less(a, b),
        text_less(b, c),
    ensures
        text_less(a, c),
    decreases a.len(),
{
    if a.len() > 0 && b.len() > 0 && c.len() > 0 && a[0] == b[0] && b[0] == c[0] {
        lemma_text_less_transitive(a.drop_first(), b.drop_first(), c.drop_first());
    }
}

/// Whether one text sorts before another.
pub fn sorts_before(a: &str, b: &str) -> (r: bool)
    ensures
        r == text_less(a@, b@),
{
    let n = a.unicode_len();
    let m = b.unicode_len();
    let mut i: usize = 0;
    assert(a@.skip(0) =~= a@);
    assert(b@.skip(0) =~= b@);
    while i < n && i < m
        invariant
            i <= n,
            i <= m,
            n == a@.len(),
            m == b@.len(),
            text_less(a@, b@) == text_less(a@.skip(i as int), b@.skip(i as int)),
        decreases n - i,
    {
        let x = a.get_char(i);
        let y = b.get_char(i);
        proof {
            assert(a@.skip(i as int)[0] == x);
            assert(b@.skip(i as int)[0] == y);
            assert(a@.skip(i as int).drop_first() =~= a@.skip(i + 1));
            assert(b@.skip(i as int).drop_first() =~= b@.skip(i + 1));
        }
        if x != y {
            return (x as u32) < (y as u32);
        }
        i = i + 1;
    }
    i < m
}

/// The path each entry is spelled at for a router.
pub open spec fn spelled_keys(selectors: Seq<Seq<PartView>>, syntax: PathSyntax) -> Seq<Seq<char>> {
    selectors.map_values(|parts: Seq<PartView>| spelled_path(selector_segments(parts), syntax))
}

/// The method each entry selects.
pub open spec fn selected_methods(selectors: Seq<Seq<PartView>>) -> Seq<Option<HttpMethod>> {
    selectors.map_values(|parts: Seq<PartView>| selector_method(parts))
}

/// The method and index of each of the first `upto` entries whose key is `key`, in order.
pub open spec fn entries_under(
    keys: Seq<Seq<char>>,
    methods: Seq<Option<HttpMethod>>,
    key: Seq<char>,
    upto: int,
) -> Seq<(Option<HttpMethod>, int)>
    decreases upto,
{
    if upto <= 0 {
        Seq::empty()
    } else {
        let before = entries_under(keys, methods, key, upto - 1);
        if keys[upto - 1] == key {
            before.push((methods[upto - 1], upto - 1))
        } else {
            before
        }
    }
}

/// A table, as values.
pub open spec fn table_view(table: Seq<(String, Vec<(Option<HttpMethod>, usize)>)>) -> Seq<
    (Seq<char>, Seq<(Option<HttpMethod>, int)>),
> {
    table.map_values(
        |group: (String, Vec<(Option<HttpMethod>, usize)>)|
            (
                group.0@,
                group.1@.map_values(|entry: (Option<HttpMethod>, usize)| (entry.0, entry.1 as int)),
            ),
    )
}

/// Whether a table groups the first `upto` entries by key: its keys sort strictly in order, each
/// group holds every entry under its key and nothing else, and every entry's key has a group.
pub open spec fn groups_entries(
    table: Seq<(Seq<char>, Seq<(Option<HttpMethod>, int)>)>,
    keys: Seq<Seq<char>>,
    methods: Seq<Option<HttpMethod>>,
    upto: int,
) -> bool {
    &&& forall|a: int, b: int| 0 <= a < b < table.len() ==> text_less(#[trigger] table[a].0, #[trigger] table[b].0)
    &&& forall|g: int|
        0 <= g < table.len() ==> #[trigger] table[g].1 == entries_under(keys, methods, table[g].0, upto)
            && table[g].1.len() > 0
    &&& forall|j: int| 0 <= j < upto ==> #[trigger] has_group(table, keys[j])
}

/// Whether a table has a group under a key.
pub open spec fn has_group(table: Seq<(Seq<char>, Seq<(Option<HttpMethod>, int)>)>, key: Seq<char>) -> bool {
    exists|g: int| 0 <= g < table.len() && #[trigger] table[g].0 == key
}

/// Entries under a key no earlier entry has are none.
proof fn lemma_entries_under_absent(
    keys: Seq<Seq<char>>,
    methods: Seq<Option<HttpMethod>>,
    key: Seq<char>,
    upto: int,
)
    requires
        forall|j: int| 0 <= j < upto ==> keys[j] != key,
    ensures
        entries_under(keys, methods, key, upto) == Seq::<(Option<HttpMethod>, int)>::empty(),
    decreases upto,
{
    if upto > 0 {
        lemma_entries_under_absent(keys, methods, key, upto - 1);
    }
}

impl<Endpoint> DirectRoute<Endpoint> {
    /// Folds the route into one group per path as a router spells it, the paths in the order they
    /// sort in, each group holding the method and index of every entry at that path, in
    /// declaration order.
    pub fn grouped_by_path(&self, syntax: PathSyntax) -> (r: Vec<(String, Vec<(Option<HttpMethod>, usize)>)>)
        ensures
            groups_entries(
                table_view(r@),
                spelled_keys(self.selectors(), syntax),
                selected_methods(self.selectors()),
                self.selectors().len() as int,
            ),
    {
        let ghost keys = spelled_keys(self.selectors(), syntax);
        let ghost methods = selected_methods(self.selectors());
        let n = self.len();
        let mut table: Vec<(String, Vec<(Option<HttpMethod>, usize)>)> = Vec::new();
        let mut i: usize = 0;
        while i < n
            invariant
                i <= n,
                n == self.selectors().len(),
                keys == spelled_keys(self.selectors(), syntax),
                methods == selected_methods(self.selectors()),
                groups_entries(table_view(table@), keys, methods, i as int),
            decreases n - i,
        {
            let selector = self.selector(i);
            let key = selector.spelled_path(syntax);
            let method = selector.method();
            proof {
                assert(keys[i as int] == key@);
                assert(methods[i as int] == method);
            }
            let ghost before = table_view(table@);
            let mut p: usize = 0;
            while p < table.len() && sorts_before(table[p].0.as_str(), key.as_str())
                invariant
                    p <= table.len(),
                    before == table_view(table@),
                    forall|q: int| 0 <= q < p ==> text_less(#[trigger] before[q].0, key@),
                decreases table.len() - p,
            {
                p = p + 1;
            }
            let found = p < table.len() && table[p].0 == key;
            if found {
                let (name, mut entries) = table.remove(p);
                entries.push((method, i));
                table.insert(p, (name, entries));
                proof {
                    let after = table_view(table@);
                    assert(after.len() == before.len());
                    assert forall|g: int| 0 <= g < after.len() && g != p implies after[g] == before[g] by {}
                    assert(after[p as int].0 == key@);
                    assert(after[p as int].1 =~= before[p as int].1.push((method, i as int)));
                    assert forall|g: int| 0 <= g < after.len() implies #[trigger] after[g].1
                        == entries_under(keys, methods, after[g].0, i + 1) && after[g].1.len() > 0 by {
                        if g != p {
                            lemma_text_less_irreflexive(key@);
                            if after[g].0 == key@ {
                                if g < p {
                                    assert(text_less(before[g].0, before[p as int].0));
                                } else {
                                    assert(text_less(before[p as int].0, before[g].0));
                                }
                                lemma_text_less_irreflexive(before[g].0);
                            }
                        }
                    }
                    assert forall|j: int| 0 <= j < i + 1 implies #[trigger] has_group(after, keys[j]) by {
                        if j < i {
                            assert(has_group(before, keys[j]));
                            let g = choose|g: int| 0 <= g < before.len() && #[trigger] before[g].0 == keys[j];
                            assert(after[g].0 == keys[j]);
                        } else {
                            assert(after[p as int].0 == keys[j]);
                        }
                    }
                }
            } else {
                let ghost stated = key@;
                let entries = vec![(method, i)];
                table.insert(p, (key, entries));
                proof {
                    let after = table_view(table@);
                    lemma_text_less_irreflexive(stated);
                    assert forall|g: int| 0 <= g < before.len() implies before[g].0 != stated by {
                        if g < p {
                            assert(text_less(before[g].0, stated));
                        } else {
                            if before[g].0 == stated {
                                if g > p {
                                    assert(text_less(before[p as int].0, before[g].0));
                                    lemma_text_less_total(before[p as int].0, stated);
                                    lemma_text_less_transitive(before[p as int].0, stated, before[p as int].0);
                                    lemma_text_less_irreflexive(before[p as int].0);
                                }
                            }
                        }
                    }
                    assert forall|j: int| 0 <= j < i implies keys[j] != stated by {
                        assert(has_group(before, keys[j]));
                            let g = choose|g: int| 0 <= g < before.len() && #[trigger] before[g].0 == keys[j];
                    }
                    lemma_entries_under_absent(keys, methods, stated, i as int);
                    assert(after.len() == before.len() + 1);
                    assert forall|g: int| 0 <= g < p implies after[g] == before[g] by {}
                    assert forall|g: int| p < g < after.len() implies after[g] == before[g - 1] by {}
                    assert(after[p as int].0 == stated);
                    assert(after[p as int].1 =~= seq![(method, i as int)]);
                    if p < before.len() {
                        lemma_text_less_total(before[p as int].0, stated);
                    }
                    assert forall|a: int, b: int| 0 <= a < b < after.len() implies text_less(
                        #[trigger] after[a].0,
                        #[trigger] after[b].0,
                    ) by {
                        if b < p {
                            assert(text_less(before[a].0, before[b].0));
                        } else if a < p && b == p {
                        } else if a < p && b > p {
                            assert(text_less(before[a].0, before[b - 1].0));
                        } else if a == p && b > p {
                            if b - 1 > p {
                                assert(text_less(before[p as int].0, before[b - 1].0));
                                lemma_text_less_transitive(stated, before[p as int].0, before[b - 1].0);
                            }
                        } else {
                            assert(text_less(before[a - 1].0, before[b - 1].0));
                        }
                    }
                    assert forall|g: int| 0 <= g < after.len() implies #[trigger] after[g].1
                        == entries_under(keys, methods, after[g].0, i + 1) && after[g].1.len() > 0 by {
                        if g < p {
                            assert(before[g].0 != stated);
                        } else if g > p {
                            assert(before[g - 1].0 != stated);
                        }
                    }
                    assert forall|j: int| 0 <= j < i + 1 implies #[trigger] has_group(after, keys[j]) by {
                        if j < i {
                            assert(has_group(before, keys[j]));
                            let g = choose|g: int| 0 <= g < before.len() && #[trigger] before[g].0 == keys[j];
                            if g < p {
                                assert(after[g].0 == keys[j]);
                            } else {
                                assert(after[g + 1].0 == keys[j]);
                            }
                        } else {
                            assert(after[p as int].0 == keys[j]);
                        }
                    }
                }
            }
            i = i + 1;
        }
        table
    }
}

} // verus!
