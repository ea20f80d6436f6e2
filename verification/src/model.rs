//! The plan's data model: an immutable description of a run.
//!
//! A plan names a starting revision, environment bindings, reusable command
//! templates (recipes), hooks that fire around each step, and an ordered list
//! of step lines.  Maps are held as vectors of key/value pairs; a lookup
//! returns the first binding of a key, and an update replaces that binding in
//! place, so keys stay unique when plans are built through these functions.

use vstd::prelude::*;

verus! {

/// The starting point of a run: a revision inside a repository checkout.
#[derive(Debug, Clone)]
pub struct Origin {
    pub sha: String,
    pub repo: String,
}

/// A named shell-function body with tags and an optional commit-message
/// template.  `tag` is an input-side convenience: normalization folds it
/// into `tags`.
#[derive(Debug, Clone)]
pub struct Recipe {
    pub run: String,
    pub commit_template: Option<String>,
    pub tag: Option<String>,
    pub tags: Vec<String>,
}

/// A pre- or post-step script, optionally gated by a tag predicate.
#[derive(Debug, Clone)]
pub struct Hook {
    pub run: Option<String>,
    pub when_tag: Option<String>,
    pub when_not_tag: Option<String>,
}

/// The fully merged declarative description of a run.
#[derive(Debug)]
pub struct Mend {
    pub from: Option<Origin>,
    pub includes: Vec<String>,
    pub env: Vec<(String, String)>,
    pub recipes: Vec<(String, Recipe)>,
    pub hooks: Vec<(String, Vec<Hook>)>,
    pub steps: Vec<String>,
}

/// The first value bound to `key` in an association list, if any.
pub open spec fn assoc_lookup<V>(m: Seq<(String, V)>, key: Seq<char>) -> Option<V>
    decreases m.len(),
{
    if m.len() == 0 {
        None
    } else if m[0].0@ == key {
        Some(m[0].1)
    } else {
        assoc_lookup(m.drop_first(), key)
    }
}

/// Appending a pair can only bind a key that was unbound before.
pub proof fn lemma_assoc_lookup_push<V>(m: Seq<(String, V)>, x: (String, V), k: Seq<char>)
    ensures
        assoc_lookup(m.push(x), k) == match assoc_lookup(m, k) {
            Some(v) => Some(v),
            None => if x.0@ == k {
                Some(x.1)
            } else {
                None
            },
        },
    decreases m.len(),
{
    if m.len() == 0 {
        assert(m.push(x)[0] == x);
        assert(m.push(x).len() == 1);
        assert(m.push(x).drop_first() =~= m);
    } else {
        assert(m.push(x)[0] == m[0]);
        assert(m.push(x).drop_first() =~= m.drop_first().push(x));
        lemma_assoc_lookup_push(m.drop_first(), x, k);
    }
}

/// Replacing the value at the first binding of `key` rebinds exactly that
/// key and no other.
pub proof fn lemma_assoc_lookup_update<V>(
    m1: Seq<(String, V)>,
    m2: Seq<(String, V)>,
    i: int,
    key: Seq<char>,
    val: V,
    k: Seq<char>,
)
    requires
        0 <= i < m1.len(),
        m2.len() == m1.len(),
        forall|j: int| 0 <= j < m1.len() && j != i ==> m2[j] == m1[j],
        m1[i].0@ == key,
        m2[i].0@ == key,
        m2[i].1 == val,
        forall|j: int| 0 <= j < i ==> m1[j].0@ != key,
    ensures
        assoc_lookup(m2, k) == if k == key {
            Some(val)
        } else {
            assoc_lookup(m1, k)
        },
    decreases i,
{
    if i == 0 {
        if k != key {
            assert(m2.drop_first() =~= m1.drop_first());
        }
    } else {
        assert(m2[0] == m1[0]);
        assert(m1[0].0@ != key);
        lemma_assoc_lookup_update(m1.drop_first(), m2.drop_first(), i - 1, key, val, k);
        assert(forall|j: int|
            0 <= j < m1.drop_first().len() && j != i - 1 ==> m1.drop_first()[j]
                == #[trigger] m2.drop_first()[j]);
    }
}

/// Binds `key` to `val`: replaces the value of the first existing binding of
/// `key`, or appends a new one when none exists.
pub fn assoc_upsert<V>(map: &mut Vec<(String, V)>, key: String, val: V)
    ensures
        forall|k: Seq<char>|
            #[trigger] assoc_lookup(final(map)@, k) == (if k == key@ {
                Some(val)
            } else {
                assoc_lookup(old(map)@, k)
            }),
{
    let n = map.len();
    let mut i: usize = 0;
    while i < n
        invariant
            n == map@.len(),
            map@ == old(map)@,
            0 <= i <= n,
            forall|j: int| 0 <= j < i ==> old(map)@[j].0@ != key@,
        decreases n - i,
    {
        if map[i].0.eq(&key) {
            let pair = map.remove(i);
            map.insert(i, (pair.0, val));
            proof {
                assert forall|k: Seq<char>|
                    #[trigger] assoc_lookup(map@, k) == (if k == key@ {
                        Some(val)
                    } else {
                        assoc_lookup(old(map)@, k)
                    }) by {
                    lemma_assoc_lookup_update(old(map)@, map@, i as int, key@, val, k);
                }
            }
            return ;
        }
        i = i + 1;
    }
    map.push((key, val));
    proof {
        assert forall|k: Seq<char>|
            #[trigger] assoc_lookup(map@, k) == (if k == key@ {
                Some(val)
            } else {
                assoc_lookup(old(map)@, k)
            }) by {
            lemma_assoc_lookup_push(old(map)@, map@.last(), k);
            if assoc_lookup(old(map)@, k) is Some {
                lemma_assoc_lookup_found_index(old(map)@, k);
            }
        }
    }
}

/// A successful lookup is witnessed by some binding of the key.
pub proof fn lemma_assoc_lookup_found_index<V>(m: Seq<(String, V)>, k: Seq<char>)
    requires
        assoc_lookup(m, k) is Some,
    ensures
        exists|j: int| 0 <= j < m.len() && m[j].0@ == k,
    decreases m.len(),
{
    if m.len() > 0 && m[0].0@ != k {
        lemma_assoc_lookup_found_index(m.drop_first(), k);
    }
}

impl Mend {
    /// An empty plan: nothing declared.
    pub fn new() -> (r: Mend)
        ensures
            r.from is None,
            r.includes@.len() == 0,
            r.env@.len() == 0,
            r.recipes@.len() == 0,
            r.hooks@.len() == 0,
            r.steps@.len() == 0,
    {
        Mend {
            from: None,
            includes: Vec::new(),
            env: Vec::new(),
            recipes: Vec::new(),
            hooks: Vec::new(),
            steps: Vec::new(),
        }
    }

    /// The recipe named `name`, if the plan declares one.
    pub fn find_recipe(&self, name: &String) -> (r: Option<&Recipe>)
        ensures
            match r {
                Some(rcp) => assoc_lookup(self.recipes@, name@) == Some(*rcp),
                None => assoc_lookup(self.recipes@, name@) is None,
            },
    {
        let n = self.recipes.len();
        let mut i: usize = 0;
        proof {
            assert(self.recipes@.skip(0) =~= self.recipes@);
        }
        while i < n
            invariant
                n == self.recipes@.len(),
                0 <= i <= n,
                assoc_lookup(self.recipes@, name@) == assoc_lookup(
                    self.recipes@.skip(i as int),
                    name@,
                ),
            decreases n - i,
        {
            proof {
                assert(self.recipes@.skip(i as int).drop_first() =~= self.recipes@.skip(
                    i as int + 1,
                ));
            }
            if self.recipes[i].0.eq(name) {
                return Some(&self.recipes[i].1);
            }
            i = i + 1;
        }
        proof {
            assert(self.recipes@.skip(n as int) =~= Seq::<(String, Recipe)>::empty());
        }
        None
    }

    /// The hook list under `key`, if the plan declares one.
    pub fn find_hooks(&self, key: &String) -> (r: Option<&Vec<Hook>>)
        ensures
            match r {
                Some(hs) => assoc_lookup(self.hooks@, key@) == Some(*hs),
                None => assoc_lookup(self.hooks@, key@) is None,
            },
    {
        let n = self.hooks.len();
        let mut i: usize = 0;
        proof {
            assert(self.hooks@.skip(0) =~= self.hooks@);
        }
        while i < n
            invariant
                n == self.hooks@.len(),
                0 <= i <= n,
                assoc_lookup(self.hooks@, key@) == assoc_lookup(self.hooks@.skip(i as int), key@),
            decreases n - i,
        {
            proof {
                assert(self.hooks@.skip(i as int).drop_first() =~= self.hooks@.skip(i as int + 1));
            }
            if self.hooks[i].0.eq(key) {
                return Some(&self.hooks[i].1);
            }
            i = i + 1;
        }
        proof {
            assert(self.hooks@.skip(n as int) =~= Seq::<(String, Vec<Hook>)>::empty());
        }
        None
    }
}

/// What one association list lays over another: the overlay's binding where
/// it has one, else the base's.
pub open spec fn merged_lookup<V>(
    overlay: Seq<(String, V)>,
    base: Seq<(String, V)>,
    k: Seq<char>,
) -> Option<V> {
    match assoc_lookup(overlay, k) {
        Some(v) => Some(v),
        None => assoc_lookup(base, k),
    }
}

/// Lays every binding of `overlay` over `map`, the overlay winning per key.
fn assoc_extend<V>(map: &mut Vec<(String, V)>, overlay: Vec<(String, V)>)
    ensures
        forall|k: Seq<char>|
            #[trigger] assoc_lookup(final(map)@, k) == merged_lookup(overlay@, old(map)@, k),
{
    let ghost overlay0 = overlay@;
    let mut rest = overlay;
    while rest.len() > 0
        invariant
            forall|k: Seq<char>|
                #[trigger] merged_lookup(rest@, map@, k) == merged_lookup(overlay0, old(map)@, k),
        decreases rest@.len(),
    {
        let ghost rest0 = rest@;
        let ghost map0 = map@;
        let pair = rest.pop().unwrap();
        let ghost gpair = pair;
        assoc_upsert(map, pair.0, pair.1);
        proof {
            assert(rest0 =~= rest@.push(gpair));
            assert forall|k: Seq<char>|
                #[trigger] merged_lookup(rest@, map@, k) == merged_lookup(overlay0, old(map)@, k)
                by {
                lemma_assoc_lookup_push(rest@, gpair, k);
                assert(merged_lookup(rest0, map0, k) == merged_lookup(overlay0, old(map)@, k));
            }
        }
    }
    proof {
        assert forall|k: Seq<char>|
            #[trigger] assoc_lookup(map@, k) == merged_lookup(overlay0, old(map)@, k) by {
            assert(merged_lookup(rest@, map@, k) == merged_lookup(overlay0, old(map)@, k));
        }
    }
}

/// Merges `include_mend` into `merged_mend`: the starting point is replaced,
/// the environment, recipe and hook tables are laid over key-wise with the
/// included document winning, and its steps are appended.
pub fn extend_mend(merged_mend: &mut Mend, include_mend: Mend)
    ensures
        final(merged_mend).from == include_mend.from,
        final(merged_mend).includes == old(merged_mend).includes,
        final(merged_mend).steps@ == old(merged_mend).steps@ + include_mend.steps@,
        forall|k: Seq<char>|
            #[trigger] assoc_lookup(final(merged_mend).env@, k) == merged_lookup(
                include_mend.env@,
                old(merged_mend).env@,
                k,
            ),
        forall|k: Seq<char>|
            #[trigger] assoc_lookup(final(merged_mend).recipes@, k) == merged_lookup(
                include_mend.recipes@,
                old(merged_mend).recipes@,
                k,
            ),
        forall|k: Seq<char>|
            #[trigger] assoc_lookup(final(merged_mend).hooks@, k) == merged_lookup(
                include_mend.hooks@,
                old(merged_mend).hooks@,
                k,
            ),
{
    let Mend { from, includes: _, env, recipes, hooks, steps } = include_mend;
    assoc_extend(&mut merged_mend.env, env);
    merged_mend.from = from;
    assoc_extend(&mut merged_mend.recipes, recipes);
    assoc_extend(&mut merged_mend.hooks, hooks);
    let mut new_steps = steps;
    merged_mend.steps.append(&mut new_steps);
}

/// Folds each recipe's single `tag` into its `tags`, leaving `tag` unset:
/// after normalization only `tags` carries meaning.
pub fn normalize_recipes(mend: &mut Mend)
    ensures
        final(mend).from == old(mend).from,
        final(mend).includes == old(mend).includes,
        final(mend).env == old(mend).env,
        final(mend).hooks == old(mend).hooks,
        final(mend).steps == old(mend).steps,
        final(mend).recipes@.len() == old(mend).recipes@.len(),
        forall|i: int|
            0 <= i < old(mend).recipes@.len() ==> {
                let before = #[trigger] old(mend).recipes@[i];
                let after = final(mend).recipes@[i];
                &&& after.0 == before.0
                &&& after.1.run == before.1.run
                &&& after.1.commit_template == before.1.commit_template
                &&& after.1.tag is None
                &&& after.1.tags@ == before.1.tags@ + (match before.1.tag {
                    Some(t) => seq![t],
                    None => Seq::<String>::empty(),
                })
            },
{
    let n = mend.recipes.len();
    let mut i: usize = 0;
    while i < n
        invariant
            n == mend.recipes@.len(),
            n == old(mend).recipes@.len(),
            0 <= i <= n,
            mend.from == old(mend).from,
            mend.includes == old(mend).includes,
            mend.env == old(mend).env,
            mend.hooks == old(mend).hooks,
            mend.steps == old(mend).steps,
            forall|j: int| i <= j < n ==> mend.recipes@[j] == old(mend).recipes@[j],
            forall|j: int|
                0 <= j < i ==> {
                    let before = #[trigger] old(mend).recipes@[j];
                    let after = mend.recipes@[j];
                    &&& after.0 == before.0
                    &&& after.1.run == before.1.run
                    &&& after.1.commit_template == before.1.commit_template
                    &&& after.1.tag is None
                    &&& after.1.tags@ == before.1.tags@ + (match before.1.tag {
                        Some(t) => seq![t],
                        None => Seq::<String>::empty(),
                    })
                },
        decreases n - i,
    {
        let pair = mend.recipes.remove(i);
        let (name, mut recipe) = pair;
        let ghost tags0 = recipe.tags@;
        match recipe.tag {
            Some(t) => {
                recipe.tag = None;
                recipe.tags.push(t);
                proof {
                    assert(recipe.tags@ =~= tags0 + seq![old(mend).recipes@[i as int].1.tag.unwrap()]);
                }
            },
            None => {
                proof {
                    assert(recipe.tags@ =~= tags0 + Seq::<String>::empty());
                }
            },
        }
        mend.recipes.insert(i, (name, recipe));
        i = i + 1;
    }
}

} // verus!
