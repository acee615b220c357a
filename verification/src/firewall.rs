//! Per-tab content filtering rules: an ordered table of tab ids, each with
//! its ordered list of rule strings.

use vstd::prelude::*;

use crate::text::string_eq_str;

verus! {

/// The filtering rules of every tab, keyed by tab id (unique keys).
pub struct Firewall {
    rules: Vec<(String, Vec<String>)>,
}

/// First rule list stored for `key`, if any.
pub open spec fn fw_lookup(rules: Seq<(Seq<char>, Seq<Seq<char>>)>, key: Seq<char>) -> Option<
    Seq<Seq<char>>,
>
    decreases rules.len(),
{
    if rules.len() == 0 {
        Option::None
    } else if rules[0].0 == key {
        Option::Some(rules[0].1)
    } else {
        fw_lookup(rules.drop_first(), key)
    }
}

/// The table after one rule is added: appended to the first entry for the
/// tab, or a fresh entry at the end.
pub open spec fn fw_add(
    rules: Seq<(Seq<char>, Seq<Seq<char>>)>,
    key: Seq<char>,
    rule: Seq<char>,
    k: int,
) -> Seq<(Seq<char>, Seq<Seq<char>>)>
    decreases rules.len() - k,
{
    if k < 0 || k >= rules.len() {
        rules.push((key, seq![rule]))
    } else if rules[k].0 == key {
        rules.update(k, (key, rules[k].1.push(rule)))
    } else {
        fw_add(rules, key, rule, k + 1)
    }
}

/// A rule list with every copy of `rule` removed, order kept.
pub open spec fn without_rule(v: Seq<Seq<char>>, rule: Seq<char>) -> Seq<Seq<char>>
    decreases v.len(),
{
    if v.len() == 0 {
        Seq::empty()
    } else {
        (if v[0] == rule {
            Seq::empty()
        } else {
            seq![v[0]]
        }) + without_rule(v.drop_first(), rule)
    }
}

/// The table after a rule is removed from the first entry for the tab (a
/// missing tab changes nothing).
pub open spec fn fw_remove(
    rules: Seq<(Seq<char>, Seq<Seq<char>>)>,
    key: Seq<char>,
    rule: Seq<char>,
    k: int,
) -> Seq<(Seq<char>, Seq<Seq<char>>)>
    decreases rules.len() - k,
{
    if k < 0 || k >= rules.len() {
        rules
    } else if rules[k].0 == key {
        rules.update(k, (key, without_rule(rules[k].1, rule)))
    } else {
        fw_remove(rules, key, rule, k + 1)
    }
}

impl Firewall {
    /// The table's model.
    pub closed spec fn rules_view(&self) -> Seq<(Seq<char>, Seq<Seq<char>>)> {
        self.rules.deep_view()
    }

    /// Creates an empty table.
    pub fn new() -> (r: Firewall)
        ensures
            r.rules_view() == Seq::<(Seq<char>, Seq<Seq<char>>)>::empty(),
    {
        let r = Firewall { rules: Vec::new() };
        proof {
            assert(r.rules_view() =~= Seq::<(Seq<char>, Seq<Seq<char>>)>::empty());
        }
        r
    }

    /// Appends a rule to the tab's list, creating the tab's entry if it has
    /// none yet.
    pub fn add_rule(&mut self, tab_id: String, rule: String)
        ensures
            final(self).rules_view() == fw_add(old(self).rules_view(), tab_id@, rule@, 0),
    {
        let ghost rv = self.rules.deep_view();
        let n: usize = self.rules.len();
        let mut k: usize = 0;
        while k < n
            invariant
                0 <= k <= n,
                n == self.rules@.len(),
                self.rules.deep_view() == rv,
                rv.len() == n,
                *self == *old(self),
                fw_add(rv, tab_id@, rule@, 0) == fw_add(rv, tab_id@, rule@, k as int),
            decreases n - k,
        {
            proof {
                assert(rv[k as int].0 =~= self.rules@[k as int].0@);
            }
            if string_eq_str(&self.rules[k].0, tab_id.as_str()) {
                let ghost old_list = self.rules@[k as int].1.deep_view();
                let mut entry = self.rules.remove(k);
                entry.1.push(rule);
                proof {
                    assert(entry.1.deep_view() =~~= old_list.push(rule@));
                }
                self.rules.insert(k, entry);
                proof {
                    assert(self.rules.deep_view() =~~= rv.update(
                        k as int,
                        (tab_id@, old_list.push(rule@)),
                    ));
                    assert(rv[k as int].1 == old_list);
                }
                return ;
            }
            k = k + 1;
        }
        let ghost before = self.rules.deep_view();
        self.rules.push((tab_id, vec![rule]));
        proof {
            assert(self.rules.deep_view() =~~= before.push((tab_id@, seq![rule@])));
        }
    }

    /// The rules of one tab, if it has an entry.
    pub fn get_rules(&self, tab_id: &str) -> (r: Option<&Vec<String>>)
        ensures
            match r {
                Option::Some(v) => fw_lookup(self.rules_view(), tab_id@) == Option::Some(
                    v.deep_view(),
                ),
                Option::None => fw_lookup(self.rules_view(), tab_id@) is None,
            },
    {
        let ghost rv = self.rules.deep_view();
        let n: usize = self.rules.len();
        let mut k: usize = 0;
        proof {
            assert(rv.skip(0) =~= rv);
        }
        while k < n
            invariant
                0 <= k <= n,
                n == self.rules@.len(),
                self.rules.deep_view() == rv,
                rv.len() == n,
                fw_lookup(rv, tab_id@) == fw_lookup(rv.skip(k as int), tab_id@),
            decreases n - k,
        {
            proof {
                assert(rv.skip(k as int)[0] == rv[k as int]);
                assert(rv.skip(k as int).drop_first() =~= rv.skip(k + 1));
                assert(rv[k as int].0 =~= self.rules@[k as int].0@);
            }
            if string_eq_str(&self.rules[k].0, tab_id) {
                return Option::Some(&self.rules[k].1);
            }
            k = k + 1;
        }
        proof {
            assert(rv.skip(n as int) =~= Seq::<(Seq<char>, Seq<Seq<char>>)>::empty());
        }
        Option::None
    }

    /// Removes every copy of `rule` from the tab's list; a tab without an
    /// entry is left as it is.
    pub fn remove_rule(&mut self, tab_id: &str, rule: &str)
        ensures
            final(self).rules_view() == fw_remove(old(self).rules_view(), tab_id@, rule@, 0),
    {
        let ghost rv = self.rules.deep_view();
        let n: usize = self.rules.len();
        let mut k: usize = 0;
        while k < n
            invariant
                0 <= k <= n,
                n == self.rules@.len(),
                self.rules.deep_view() == rv,
                rv.len() == n,
                *self == *old(self),
                fw_remove(rv, tab_id@, rule@, 0) == fw_remove(rv, tab_id@, rule@, k as int),
            decreases n - k,
        {
            proof {
                assert(rv[k as int].0 =~= self.rules@[k as int].0@);
            }
            if string_eq_str(&self.rules[k].0, tab_id) {
                let ghost old_list = self.rules@[k as int].1.deep_view();
                let entry = self.rules.remove(k);
                let list = entry.1;
                let key = entry.0;
                let ghost lv = list.deep_view();
                let mut kept: Vec<String> = Vec::new();
                let m: usize = list.len();
                let mut j: usize = 0;
                proof {
                    assert(lv.skip(0) =~= lv);
                    assert(kept.deep_view() + without_rule(lv.skip(0), rule@) =~= without_rule(
                        lv,
                        rule@,
                    ));
                }
                while j < m
                    invariant
                        0 <= j <= m,
                        m == list@.len(),
                        list.deep_view() == lv,
                        lv.len() == m,
                        kept.deep_view() + without_rule(lv.skip(j as int), rule@) == without_rule(
                            lv,
                            rule@,
                        ),
                    decreases m - j,
                {
                    proof {
                        assert(lv.skip(j as int)[0] == lv[j as int]);
                        assert(lv.skip(j as int).drop_first() =~= lv.skip(j + 1));
                        assert(lv[j as int] =~= list@[j as int]@);
                    }
                    let ghost before = kept.deep_view();
                    if !string_eq_str(&list[j], rule) {
                        let s = list[j].clone();
                        kept.push(s);
                        proof {
                            assert(kept.deep_view() =~~= before.push(lv[j as int]));
                            assert(before + (seq![lv[j as int]] + without_rule(
                                lv.skip(j + 1),
                                rule@,
                            )) =~= (before.push(lv[j as int])) + without_rule(
                                lv.skip(j + 1),
                                rule@,
                            ));
                        }
                    }
                    j = j + 1;
                }
                proof {
                    assert(without_rule(lv.skip(m as int), rule@) =~= Seq::<Seq<char>>::empty());
                    assert(kept.deep_view() + Seq::<Seq<char>>::empty() =~= kept.deep_view());
                }
                self.rules.insert(k, (key, kept));
                proof {
                    assert(rv[k as int].1 == old_list);
                    assert(old_list == lv);
                    assert(self.rules.deep_view() =~~= rv.update(
                        k as int,
                        (tab_id@, without_rule(lv, rule@)),
                    ));
                }
                return ;
            }
            k = k + 1;
        }
    }
}

} // verus!
