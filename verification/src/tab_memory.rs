//! Per-tab remembered content: an ordered table of tab ids and their stored
//! content, with unique keys and insert-replaces semantics.

use vstd::prelude::*;

use crate::text::string_eq_str;

verus! {

/// Remembered content per tab id.
pub struct TabMemory {
    tabs: Vec<(String, String)>,
}

/// First content stored for `key`, if any.
pub open spec fn tm_lookup(tabs: Seq<(Seq<char>, Seq<char>)>, key: Seq<char>) -> Option<Seq<char>>
    decreases tabs.len(),
{
    if tabs.len() == 0 {
        Option::None
    } else if tabs[0].0 == key {
        Option::Some(tabs[0].1)
    } else {
        tm_lookup(tabs.drop_first(), key)
    }
}

/// The table after a store: the first entry for the key is replaced, or a
/// new entry is appended.
pub open spec fn tm_set(
    tabs: Seq<(Seq<char>, Seq<char>)>,
    key: Seq<char>,
    value: Seq<char>,
    k: int,
) -> Seq<(Seq<char>, Seq<char>)>
    decreases tabs.len() - k,
{
    if k < 0 || k >= tabs.len() {
        tabs.push((key, value))
    } else if tabs[k].0 == key {
        tabs.update(k, (key, value))
    } else {
        tm_set(tabs, key, value, k + 1)
    }
}

/// The table after a removal: the first entry for the key is dropped, a
/// missing key changes nothing.
pub open spec fn tm_remove(tabs: Seq<(Seq<char>, Seq<char>)>, key: Seq<char>, k: int) -> Seq<
    (Seq<char>, Seq<char>),
>
    decreases tabs.len() - k,
{
    if k < 0 || k >= tabs.len() {
        tabs
    } else if tabs[k].0 == key {
        tabs.remove(k)
    } else {
        tm_remove(tabs, key, k + 1)
    }
}

impl TabMemory {
    /// The table's model.
    pub closed spec fn tabs_view(&self) -> Seq<(Seq<char>, Seq<char>)> {
        self.tabs.deep_view()
    }

    /// Creates an empty table.
    pub fn new() -> (r: TabMemory)
        ensures
            r.tabs_view() == Seq::<(Seq<char>, Seq<char>)>::empty(),
    {
        let r = TabMemory { tabs: Vec::new() };
        proof {
            assert(r.tabs_view() =~= Seq::<(Seq<char>, Seq<char>)>::empty());
        }
        r
    }

    /// Stores content for a tab, replacing what was stored before.
    pub fn add_tab(&mut self, id: String, content: String)
        ensures
            final(self).tabs_view() == tm_set(old(self).tabs_view(), id@, content@, 0),
    {
        let ghost tv = self.tabs.deep_view();
        let n: usize = self.tabs.len();
        let mut k: usize = 0;
        while k < n
            invariant
                0 <= k <= n,
                n == self.tabs@.len(),
                self.tabs.deep_view() == tv,
                tv.len() == n,
                *self == *old(self),
                tm_set(tv, id@, content@, 0) == tm_set(tv, id@, content@, k as int),
            decreases n - k,
        {
            proof {
                assert(tv[k as int].0 =~= self.tabs@[k as int].0@);
            }
            if string_eq_str(&self.tabs[k].0, id.as_str()) {
                self.tabs[k] = (id, content);
                proof {
                    assert(self.tabs.deep_view() =~~= tv.update(k as int, (id@, content@)));
                }
                return ;
            }
            k = k + 1;
        }
        let ghost before = self.tabs.deep_view();
        self.tabs.push((id, content));
        proof {
            assert(self.tabs.deep_view() =~~= before.push((id@, content@)));
        }
    }

    /// The content stored for a tab, if any.
    pub fn get_tab(&self, id: &str) -> (r: Option<&String>)
        ensures
            match r {
                Option::Some(v) => tm_lookup(self.tabs_view(), id@) == Option::Some(v@),
                Option::None => tm_lookup(self.tabs_view(), id@) is None,
            },
    {
        let ghost tv = self.tabs.deep_view();
        let n: usize = self.tabs.len();
        let mut k: usize = 0;
        proof {
            assert(tv.skip(0) =~= tv);
        }
        while k < n
            invariant
                0 <= k <= n,
                n == self.tabs@.len(),
                self.tabs.deep_view() == tv,
                tv.len() == n,
                tm_lookup(tv, id@) == tm_lookup(tv.skip(k as int), id@),
            decreases n - k,
        {
            proof {
                assert(tv.skip(k as int)[0] == tv[k as int]);
                assert(tv.skip(k as int).drop_first() =~= tv.skip(k + 1));
                assert(tv[k as int].0 =~= self.tabs@[k as int].0@);
            }
            if string_eq_str(&self.tabs[k].0, id) {
                return Option::Some(&self.tabs[k].1);
            }
            k = k + 1;
        }
        proof {
            assert(tv.skip(n as int) =~= Seq::<(Seq<char>, Seq<char>)>::empty());
        }
        Option::None
    }

    /// Forgets a tab's content; a missing tab changes nothing.
    pub fn remove_tab(&mut self, id: &str)
        ensures
            final(self).tabs_view() == tm_remove(old(self).tabs_view(), id@, 0),
    {
        let ghost tv = self.tabs.deep_view();
        let n: usize = self.tabs.len();
        let mut k: usize = 0;
        while k < n
            invariant
                0 <= k <= n,
                n == self.tabs@.len(),
                self.tabs.deep_view() == tv,
                tv.len() == n,
                *self == *old(self),
                tm_remove(tv, id@, 0) == tm_remove(tv, id@, k as int),
            decreases n - k,
        {
            proof {
                assert(tv[k as int].0 =~= self.tabs@[k as int].0@);
            }
            if string_eq_str(&self.tabs[k].0, id) {
                self.tabs.remove(k);
                proof {
                    assert(self.tabs.deep_view() =~~= tv.remove(k as int));
                }
                return ;
            }
            k = k + 1;
        }
    }
}

} // verus!
