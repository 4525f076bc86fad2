use vstd::prelude::*;
use crate::env::{Binding, Table};
use crate::expression::Expression;
use crate::text::{chars_eq, copy_chars};

verus! {

/// No two entries have the same key.
pub open spec fn keys_unique(s: Seq<Binding>) -> bool {
    forall|i: int, j: int| 0 <= i < j < s.len() ==> #[trigger] s[i].name@ != #[trigger] s[j].name@
}

/// Whether some entry has key `k`.
pub open spec fn has_key(s: Seq<Binding>, k: Seq<char>) -> bool {
    exists|i: int| 0 <= i < s.len() && #[trigger] s[i].name@ == k
}

/// The value stored under `k`, if any.
pub open spec fn table_get(s: Seq<Binding>, k: Seq<char>) -> Option<Expression> {
    if has_key(s, k) {
        let i = choose|i: int| 0 <= i < s.len() && #[trigger] s[i].name@ == k;
        Some(s[i].value)
    } else {
        None
    }
}

proof fn lemma_get_at(s: Seq<Binding>, k: Seq<char>, i: int)
    requires
        keys_unique(s),
        0 <= i < s.len(),
        s[i].name@ == k,
    ensures
        table_get(s, k) == Some(s[i].value),
{
    let j = choose|j: int| 0 <= j < s.len() && #[trigger] s[j].name@ == k;
    if j != i {
        if j < i {
            assert(s[j].name@ != s[i].name@);
        } else {
            assert(s[i].name@ != s[j].name@);
        }
    }
}

impl Table {
    /// An empty table.
    pub fn new() -> (t: Table)
        ensures
            t.entries@.len() == 0,
            keys_unique(t.entries@),
    {
        Table { entries: Vec::new() }
    }

    /// The index of the entry with key `k`, if any.
    pub fn find(&self, k: &[char]) -> (r: Option<usize>)
        ensures
            match r {
                Some(i) => i < self.entries@.len() && self.entries@[i as int].name@ == k@,
                None => !has_key(self.entries@, k@),
            },
    {
        let mut i: usize = 0;
        while i < self.entries.len()
            invariant
                i <= self.entries@.len(),
                forall|j: int| 0 <= j < i ==> #[trigger] self.entries@[j].name@ != k@,
            decreases self.entries.len() - i,
        {
            if chars_eq(self.entries[i].name.as_slice(), k) {
                return Some(i);
            }
            i = i + 1;
        }
        None
    }

    /// Stores `value` under `k`, replacing what was stored there.
    pub fn put(&mut self, k: &[char], value: Expression)
        requires
            keys_unique(old(self).entries@),
        ensures
            keys_unique(final(self).entries@),
            table_get(final(self).entries@, k@) == Some(value),
            forall|k2: Seq<char>| k2 != k@ ==> table_get(final(self).entries@, k2) == table_get(old(self).entries@, k2),
    {
        let ghost v0 = value;
        match self.find(k) {
            Some(i) => {
                self.entries[i].value = value;
                proof {
                    let s = self.entries@;
                    let o = old(self).entries@;
                    assert forall|a: int, b: int| 0 <= a < b < s.len() implies #[trigger] s[a].name@ != #[trigger] s[b].name@ by {
                        assert(s[a].name@ == o[a].name@ && s[b].name@ == o[b].name@);
                    }
                    lemma_get_at(s, k@, i as int);
                    assert forall|k2: Seq<char>| k2 != k@ implies table_get(s, k2) == table_get(o, k2) by {
                        if has_key(o, k2) {
                            let j = choose|j: int| 0 <= j < o.len() && #[trigger] o[j].name@ == k2;
                            assert(s[j].name@ == k2);
                            lemma_get_at(o, k2, j);
                            lemma_get_at(s, k2, j);
                        } else {
                            assert forall|j: int| 0 <= j < s.len() implies #[trigger] s[j].name@ != k2 by {
                                assert(s[j].name@ == o[j].name@);
                            }
                        }
                    }
                }
            },
            None => {
                let name = copy_chars(k);
                self.entries.push(Binding { name, value });
                proof {
                    let s = self.entries@;
                    let o = old(self).entries@;
                    let n = o.len() as int;
                    assert forall|a: int, b: int| 0 <= a < b < s.len() implies #[trigger] s[a].name@ != #[trigger] s[b].name@ by {
                        if b == n {
                            assert(s[a].name@ == o[a].name@);
                        } else {
                            assert(s[a] == o[a] && s[b] == o[b]);
                        }
                    }
                    lemma_get_at(s, k@, n);
                    assert forall|k2: Seq<char>| k2 != k@ implies table_get(s, k2) == table_get(o, k2) by {
                        if has_key(o, k2) {
                            let j = choose|j: int| 0 <= j < o.len() && #[trigger] o[j].name@ == k2;
                            assert(s[j] == o[j]);
                            lemma_get_at(o, k2, j);
                            lemma_get_at(s, k2, j);
                        } else {
                            assert forall|j: int| 0 <= j < s.len() implies #[trigger] s[j].name@ != k2 by {
                                if j < n {
                                    assert(s[j] == o[j]);
                                }
                            }
                        }
                    }
                }
            },
        }
    }

    /// The value stored under `k`, as a copy.
    pub fn get(&self, k: &[char]) -> (r: Option<Expression>)
        requires
            keys_unique(self.entries@),
        ensures
            match table_get(self.entries@, k@) {
                Some(v) => r matches Some(x) && crate::expression::copied(x, v),
                None => r is None,
            },
    {
        match self.find(k) {
            Some(i) => {
                proof { lemma_get_at(self.entries@, k@, i as int); }
                Some(self.entries[i].value.copy())
            },
            None => None,
        }
    }

    /// Removes the entry under `k`; tells whether there was one.
    pub fn remove(&mut self, k: &[char]) -> (r: bool)
        requires
            keys_unique(old(self).entries@),
        ensures
            keys_unique(final(self).entries@),
            r == has_key(old(self).entries@, k@),
            table_get(final(self).entries@, k@) is None,
            forall|k2: Seq<char>| k2 != k@ ==> table_get(final(self).entries@, k2) == table_get(old(self).entries@, k2),
    {
        match self.find(k) {
            Some(i) => {
                let ghost o = self.entries@;
                self.entries.remove(i);
                proof {
                    let s = self.entries@;
                    assert(s =~= o.remove(i as int));
                    assert forall|a: int, b: int| 0 <= a < b < s.len() implies #[trigger] s[a].name@ != #[trigger] s[b].name@ by {
                        let oa = if a < i { a } else { a + 1 };
                        let ob = if b < i { b } else { b + 1 };
                        assert(s[a] == o[oa] && s[b] == o[ob]);
                    }
                    assert forall|j: int| 0 <= j < s.len() implies #[trigger] s[j].name@ != k@ by {
                        let oj = if j < i { j } else { j + 1 };
                        assert(s[j] == o[oj]);
                        if oj < i {
                            assert(o[oj].name@ != o[i as int].name@);
                        } else {
                            assert(o[i as int].name@ != o[oj].name@);
                        }
                    }
                    assert forall|k2: Seq<char>| k2 != k@ implies table_get(s, k2) == table_get(o, k2) by {
                        if has_key(o, k2) {
                            let j = choose|j: int| 0 <= j < o.len() && #[trigger] o[j].name@ == k2;
                            assert(j != i);
                            let sj = if j < i { j } else { j - 1 };
                            assert(s[sj] == o[j]);
                            lemma_get_at(o, k2, j);
                            lemma_get_at(s, k2, sj);
                        } else {
                            assert forall|j: int| 0 <= j < s.len() implies #[trigger] s[j].name@ != k2 by {
                                let oj = if j < i { j } else { j + 1 };
                                assert(s[j] == o[oj]);
                            }
                        }
                    }
                }
                true
            },
            None => false,
        }
    }

    /// Removes every entry.
    pub fn clear(&mut self)
        ensures
            final(self).entries@.len() == 0,
            keys_unique(final(self).entries@),
    {
        self.entries.clear();
    }
}

} // verus!
