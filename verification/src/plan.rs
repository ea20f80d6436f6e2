//! The step planner: the declarative-to-imperative transform.
//!
//! Each step line becomes one [`StepRequest`]: an ordered script list —
//! selected before-hooks, then the main script, then selected after-hooks —
//! and a rendered commit message.  The main script defines a shell function
//! for the recipe whose name equals the step's first token, when the plan
//! declares one, and then invokes the step line itself.

use vstd::prelude::*;

use crate::expand::{expand_of, expand_template};
use crate::model::{assoc_lookup, Hook, Mend, Recipe};
use crate::step::StepRequest;
use crate::text::{first_token, first_token_of, push_char, tokenize, tokens_of, trim_of, trim_str};

verus! {

/// The shell function definition emitted for a matching recipe.
pub open spec fn recipe_fn_of(name: Seq<char>, body: Seq<char>) -> Seq<char> {
    "function "@ + name + "() {\n"@ + body + "\n}\n"@
}

/// The main script of a step line: the matching recipe's function definition
/// (if any), then the step line itself, then a line break.
pub open spec fn main_script_of(recipes: Seq<(String, Recipe)>, step: Seq<char>) -> Seq<char> {
    match assoc_lookup(recipes, first_token_of(step)) {
        Some(r) => recipe_fn_of(first_token_of(step), r.run@) + step + seq!['\n'],
        None => step + seq!['\n'],
    }
}

/// The tags activated by a step line: those of its matching recipe.
pub open spec fn active_tags_of(recipes: Seq<(String, Recipe)>, step: Seq<char>) -> Seq<String> {
    match assoc_lookup(recipes, first_token_of(step)) {
        Some(r) => r.tags@,
        None => Seq::empty(),
    }
}

/// Whether some tag in `tags` reads `t`.
pub open spec fn tags_contain(tags: Seq<String>, t: Seq<char>) -> bool {
    exists|i: int| 0 <= i < tags.len() && tags[i]@ == t
}

/// Whether a hook fires for the given active tags: it must have a body, and
/// its tag predicate — `when_tag` first, else `when_not_tag`, else none —
/// must hold.
pub open spec fn hook_selected(h: Hook, tags: Seq<String>) -> bool {
    h.run is Some && match h.when_tag {
        Some(wt) => tags_contain(tags, wt@),
        None => match h.when_not_tag {
            Some(wnt) => !tags_contain(tags, wnt@),
            None => true,
        },
    }
}

/// The bodies of the hooks that fire, in declared order.
pub open spec fn selected_bodies(hs: Seq<Hook>, tags: Seq<String>) -> Seq<Seq<char>>
    decreases hs.len(),
{
    if hs.len() == 0 {
        Seq::empty()
    } else {
        let rest = selected_bodies(hs.drop_first(), tags);
        if hook_selected(hs[0], tags) {
            seq![hs[0].run.unwrap()@] + rest
        } else {
            rest
        }
    }
}

/// The bodies contributed by the hook table entry under `key`.
pub open spec fn hook_bodies_of(
    hooks: Seq<(String, Vec<Hook>)>,
    key: Seq<char>,
    tags: Seq<String>,
) -> Seq<Seq<char>> {
    match assoc_lookup(hooks, key) {
        Some(v) => selected_bodies(v@, tags),
        None => Seq::empty(),
    }
}

/// The full ordered script list planned for a step line.
pub open spec fn planned_scripts(m: Mend, step: Seq<char>) -> Seq<Seq<char>> {
    let tags = active_tags_of(m.recipes@, step);
    hook_bodies_of(m.hooks@, "before_step"@, tags) + seq![main_script_of(m.recipes@, step)]
        + hook_bodies_of(m.hooks@, "after_step"@, tags)
}

/// The commit-message template of a step line: the matching recipe's
/// template when it has one, else the trimmed step line itself.
pub open spec fn template_of(recipes: Seq<(String, Recipe)>, step: Seq<char>) -> Seq<char> {
    match assoc_lookup(recipes, first_token_of(step)) {
        Some(r) => match r.commit_template {
            Some(tpl) => tpl@,
            None => trim_of(step),
        },
        None => trim_of(step),
    }
}

/// The commit message planned for a step line: its template expanded against
/// the step's whitespace tokens and the environment bindings.
pub open spec fn planned_commit_msg(m: Mend, env: Seq<(String, String)>, step: Seq<char>) -> Seq<
    char,
> {
    expand_of(template_of(m.recipes@, step), tokens_of(step), env)
}

impl StepRequest {
    /// Whether this request is exactly what the planner owes the given plan,
    /// environment and step line.
    pub open spec fn matches_plan(
        self,
        m: Mend,
        env: Seq<(String, String)>,
        step: Seq<char>,
    ) -> bool {
        &&& self.run@ == step
        &&& self.run_resolved.deep_view() == planned_scripts(m, step)
        &&& self.commit_msg@ == planned_commit_msg(m, env, step)
    }
}

/// Whether `x` occurs in `v`, comparing contents.
pub fn contains_string(v: &Vec<String>, x: &String) -> (b: bool)
    ensures
        b == tags_contain(v@, x@),
{
    let n = v.len();
    let mut i: usize = 0;
    while i < n
        invariant
            n == v@.len(),
            0 <= i <= n,
            forall|k: int| 0 <= k < i ==> v@[k]@ != x@,
        decreases n - i,
    {
        if v[i].eq(x) {
            return true;
        }
        i = i + 1;
    }
    false
}

/// Appends to `scripts` the bodies of the hooks under `key` that fire for
/// the given tags, in declared order.
pub fn add_matching_hooks(scripts: &mut Vec<String>, mend: &Mend, key: &str, tags: &Vec<String>)
    ensures
        final(scripts).deep_view() == old(scripts).deep_view() + hook_bodies_of(
            mend.hooks@,
            key@,
            tags@,
        ),
{
    let key_string = key.to_owned();
    match mend.find_hooks(&key_string) {
        None => {
            proof {
                assert(final(scripts).deep_view() =~= old(scripts).deep_view() + hook_bodies_of(
                    mend.hooks@,
                    key@,
                    tags@,
                ));
            }
        },
        Some(hs) => {
            let n = hs.len();
            let mut i: usize = 0;
            proof {
                assert(hs@.skip(0) =~= hs@);
            }
            while i < n
                invariant
                    n == hs@.len(),
                    0 <= i <= n,
                    assoc_lookup(mend.hooks@, key@) == Some(*hs),
                    scripts.deep_view() + selected_bodies(hs@.skip(i as int), tags@) == old(
                        scripts,
                    ).deep_view() + selected_bodies(hs@, tags@),
                decreases n - i,
            {
                let ghost sv0 = scripts.deep_view();
                proof {
                    assert(hs@.skip(i as int).drop_first() =~= hs@.skip(i as int + 1));
                    assert(hs@.skip(i as int)[0] == hs@[i as int]);
                }
                let h = &hs[i];
                match &h.run {
                    Some(run) => {
                        let selected: bool = match &h.when_tag {
                            Some(wt) => contains_string(tags, wt),
                            None => match &h.when_not_tag {
                                Some(wnt) => !contains_string(tags, wnt),
                                None => true,
                            },
                        };
                        assert(selected == hook_selected(hs@[i as int], tags@));
                        if selected {
                            let ghost before = scripts.deep_view();
                            scripts.push(run.clone());
                            proof {
                                assert(scripts.deep_view() =~= before.push(run@));
                                assert(scripts.deep_view() + selected_bodies(
                                    hs@.skip(i as int + 1),
                                    tags@,
                                ) =~= sv0 + (seq![run@] + selected_bodies(
                                    hs@.skip(i as int + 1),
                                    tags@,
                                )));
                            }
                        }
                    },
                    None => {
                        assert(!hook_selected(hs@[i as int], tags@));
                    },
                }
                i = i + 1;
            }
            proof {
                assert(hs@.skip(n as int) =~= Seq::<Hook>::empty());
                assert(scripts.deep_view() + Seq::<Seq<char>>::empty() =~= scripts.deep_view());
                assert(old(scripts).deep_view() + selected_bodies(hs@, tags@)
                    == old(scripts).deep_view() + hook_bodies_of(mend.hooks@, key@, tags@));
            }
        },
    }
}

/// The ordered script list for one step line: selected before-hooks, the
/// main script, then selected after-hooks.
pub fn resolve_step_scripts(instruction: &String, mend: &Mend) -> (scripts: Vec<String>)
    ensures
        scripts.deep_view() == planned_scripts(*mend, instruction@),
{
    let name = first_token(instruction.as_str());
    let empty_tags: Vec<String> = Vec::new();
    let rcp = mend.find_recipe(&name);

    let mut resolved = String::new();
    let tags: &Vec<String> = match rcp {
        Some(r) => {
            resolved.append("function ");
            resolved.append(name.as_str());
            resolved.append("() {\n");
            resolved.append(r.run.as_str());
            resolved.append("\n}\n");
            &r.tags
        },
        None => &empty_tags,
    };
    resolved.append(instruction.as_str());
    push_char(&mut resolved, '\n');
    proof {
        assert(tags@ == active_tags_of(mend.recipes@, instruction@));
        assert(resolved@ =~= main_script_of(mend.recipes@, instruction@));
    }

    let mut scripts: Vec<String> = Vec::new();
    add_matching_hooks(&mut scripts, mend, "before_step", tags);
    let ghost before = scripts.deep_view();
    scripts.push(resolved);
    proof {
        assert(scripts.deep_view() =~= before.push(main_script_of(mend.recipes@, instruction@)));
    }
    add_matching_hooks(&mut scripts, mend, "after_step", tags);
    proof {
        let tg = active_tags_of(mend.recipes@, instruction@);
        assert(Seq::<Seq<char>>::empty() + hook_bodies_of(mend.hooks@, "before_step"@, tg)
            =~= hook_bodies_of(mend.hooks@, "before_step"@, tg));
        assert(scripts.deep_view() =~= planned_scripts(*mend, instruction@));
    }
    scripts
}

/// The commit message for one step line: the matching recipe's template — or
/// the trimmed line itself — expanded against the step tokens and `env`.
pub fn render_commit_message(instruction: &str, mend: &Mend, env: &Vec<(String, String)>) -> (r:
    String)
    ensures
        r@ == planned_commit_msg(*mend, env@, instruction@),
{
    let trimmed = trim_str(instruction);
    let name = first_token(instruction);
    let args = tokenize(instruction);
    let template: &String = match mend.find_recipe(&name) {
        Some(r) => match &r.commit_template {
            Some(tpl) => tpl,
            None => &trimmed,
        },
        None => &trimmed,
    };
    proof {
        assert(template@ == template_of(mend.recipes@, instruction@));
    }
    expand_template(template.as_str(), &args, env)
}

/// One [`StepRequest`] per step line of the plan, in order: the planner is
/// total, and each request carries the step line verbatim, its planned
/// scripts and its rendered commit message.
pub fn create_run_status_from_mend(mend: &Mend, env: &Vec<(String, String)>) -> (r: Vec<
    StepRequest,
>)
    ensures
        r@.len() == mend.steps@.len(),
        forall|i: int|
            0 <= i < r@.len() ==> r@[i].matches_plan(*mend, env@, #[trigger] mend.steps@[i]@),
{
    let n = mend.steps.len();
    let mut r: Vec<StepRequest> = Vec::new();
    let mut i: usize = 0;
    while i < n
        invariant
            n == mend.steps@.len(),
            0 <= i <= n,
            r@.len() == i,
            forall|j: int|
                0 <= j < i ==> r@[j].matches_plan(*mend, env@, #[trigger] mend.steps@[j]@),
        decreases n - i,
    {
        let step_text = &mend.steps[i];
        let commit_msg = render_commit_message(step_text.as_str(), mend, env);
        let request = StepRequest {
            run: step_text.clone(),
            run_resolved: resolve_step_scripts(step_text, mend),
            commit_msg,
        };
        r.push(request);
        i = i + 1;
    }
    r
}

} // verus!
