//! What the planner guarantees, stated on its own: how commit messages fall
//! out of templates, where the main script stands among the hooks, when a
//! hook's body appears, and that planning is deterministic.

use vstd::prelude::*;

use crate::expand::{
    all_digits, digits_val, expand_of, is_digit, is_name_char, lemma_name_len_run, name_len,
    resolve_of,
};
use crate::model::{assoc_lookup, Hook, Mend, Recipe};
use crate::plan::{
    active_tags_of, hook_bodies_of, hook_selected, main_script_of, planned_commit_msg,
    planned_scripts, selected_bodies, template_of,
};
use crate::step::StepRequest;
use crate::text::{first_token_of, tokens_of, trim_of};

verus! {

/// A template without references expands to itself.
pub proof fn lemma_expand_no_dollar(t: Seq<char>, args: Seq<Seq<char>>, env: Seq<(String, String)>)
    requires
        forall|i: int| 0 <= i < t.len() ==> t[i] != '$',
    ensures
        expand_of(t, args, env) == t,
    decreases t.len(),
{
    if t.len() > 0 {
        lemma_expand_no_dollar(t.drop_first(), args, env);
        assert(seq![t[0]] + t.drop_first() =~= t);
    }
}

/// For a step whose first token matches no recipe, the commit message is the
/// step line trimmed of surrounding whitespace — provided the line holds no
/// `$` reference to expand.
pub proof fn lemma_no_recipe_commit_msg(m: Mend, env: Seq<(String, String)>, step: Seq<char>)
    requires
        assoc_lookup(m.recipes@, first_token_of(step)) is None,
        forall|i: int| 0 <= i < trim_of(step).len() ==> trim_of(step)[i] != '$',
    ensures
        planned_commit_msg(m, env, step) == trim_of(step),
{
    assert(template_of(m.recipes@, step) == trim_of(step));
    lemma_expand_no_dollar(trim_of(step), tokens_of(step), env);
}

/// For a step whose first token matches a recipe carrying a commit template,
/// the commit message is that template expanded against the step's tokens.
pub proof fn lemma_recipe_template_commit_msg(
    m: Mend,
    env: Seq<(String, String)>,
    step: Seq<char>,
    r: Recipe,
)
    requires
        assoc_lookup(m.recipes@, first_token_of(step)) == Some(r),
        r.commit_template is Some,
    ensures
        planned_commit_msg(m, env, step) == expand_of(
            r.commit_template.unwrap()@,
            tokens_of(step),
            env,
        ),
{
}

/// A reference `$N`, for a numeric `N` between 1 and the number of trailing
/// tokens, expands to exactly the `N`-th whitespace token of the step line.
pub proof fn lemma_numeric_reference_expansion(
    name: Seq<char>,
    args: Seq<Seq<char>>,
    env: Seq<(String, String)>,
)
    requires
        name.len() > 0,
        all_digits(name),
        digits_val(name) <= 32767,
        1 <= digits_val(name) < args.len(),
    ensures
        expand_of(seq!['$'] + name, args, env) == args[digits_val(name)],
{
    let t = seq!['$'] + name;
    assert(t[0] == '$');
    assert(t.len() >= 2);
    assert(is_digit(name[0]));
    assert(t[1] == name[0]);
    assert(t.skip(1) =~= name);
    assert(forall|i: int| 0 <= i < name.len() ==> is_name_char(#[trigger] name[i]));
    lemma_name_len_run(name, name.len() as int);
    let e = 1 + name_len(t.skip(1)) as int;
    assert(e == t.len());
    assert(t.subrange(1, e) =~= name);
    assert(resolve_of(name, args, env) == Some(args[digits_val(name)]));
    assert(t[1] != '{');
    assert(expand_of(t, args, env) == args[digits_val(name)] + expand_of(t.skip(e), args, env));
    assert(t.skip(e) =~= Seq::<char>::empty());
    assert(expand_of(Seq::<char>::empty(), args, env) == Seq::<char>::empty());
    assert(args[digits_val(name)] + Seq::<char>::empty() =~= args[digits_val(name)]);
}

/// The planned scripts of a step are the selected before-hook bodies, then
/// the main script, then the selected after-hook bodies, in that order.
pub proof fn lemma_main_script_position(m: Mend, step: Seq<char>)
    ensures
        ({
            let tags = active_tags_of(m.recipes@, step);
            let before = hook_bodies_of(m.hooks@, "before_step"@, tags);
            let after = hook_bodies_of(m.hooks@, "after_step"@, tags);
            let scr = planned_scripts(m, step);
            &&& scr.len() == before.len() + 1 + after.len()
            &&& scr[before.len() as int] == main_script_of(m.recipes@, step)
            &&& (forall|j: int| 0 <= j < before.len() ==> scr[j] == before[j])
            &&& (forall|j: int|
                0 <= j < after.len() ==> scr[before.len() + 1 + j] == after[j])
        }),
{
}

/// The main script stands in the planned scripts exactly once, provided no
/// selected hook body reads like it.
pub proof fn lemma_main_script_exactly_once(m: Mend, step: Seq<char>)
    requires
        ({
            let tags = active_tags_of(m.recipes@, step);
            let before = hook_bodies_of(m.hooks@, "before_step"@, tags);
            let after = hook_bodies_of(m.hooks@, "after_step"@, tags);
            let main = main_script_of(m.recipes@, step);
            &&& (forall|j: int| 0 <= j < before.len() ==> before[j] != main)
            &&& (forall|j: int| 0 <= j < after.len() ==> after[j] != main)
        }),
    ensures
        ({
            let tags = active_tags_of(m.recipes@, step);
            let before = hook_bodies_of(m.hooks@, "before_step"@, tags);
            let scr = planned_scripts(m, step);
            forall|j: int|
                0 <= j < scr.len() ==> ((scr[j] == main_script_of(m.recipes@, step)) <==> j
                    == before.len())
        }),
{
    lemma_main_script_position(m, step);
}

/// A hook with a body that its tag predicate selects contributes that body.
pub proof fn lemma_selected_body_appears(hs: Seq<Hook>, tags: Seq<String>, i: int)
    requires
        0 <= i < hs.len(),
        hook_selected(hs[i], tags),
    ensures
        selected_bodies(hs, tags).contains(hs[i].run.unwrap()@),
    decreases i,
{
    let whole = selected_bodies(hs, tags);
    let rest = selected_bodies(hs.drop_first(), tags);
    if i == 0 {
        assert(whole[0] == hs[0].run.unwrap()@);
    } else {
        lemma_selected_body_appears(hs.drop_first(), tags, i - 1);
        let b = hs.drop_first()[i - 1].run.unwrap()@;
        let j = choose|j: int| 0 <= j < rest.len() && rest[j] == b;
        if hook_selected(hs[0], tags) {
            assert(whole[j + 1] == b);
        } else {
            assert(whole[j] == b);
        }
    }
}

/// A hook under a recognized key, with a body, whose `when_tag` is among the
/// active tags — or whose `when_not_tag` is not — appears among the planned
/// scripts of the step.
pub proof fn lemma_selected_hook_appears_in_scripts(
    m: Mend,
    step: Seq<char>,
    key: Seq<char>,
    hs: Vec<Hook>,
    i: int,
)
    requires
        key == "before_step"@ || key == "after_step"@,
        assoc_lookup(m.hooks@, key) == Some(hs),
        0 <= i < hs@.len(),
        hook_selected(hs@[i], active_tags_of(m.recipes@, step)),
    ensures
        planned_scripts(m, step).contains(hs@[i].run.unwrap()@),
{
    let tags = active_tags_of(m.recipes@, step);
    let before = hook_bodies_of(m.hooks@, "before_step"@, tags);
    let after = hook_bodies_of(m.hooks@, "after_step"@, tags);
    let scr = planned_scripts(m, step);
    let b = hs@[i].run.unwrap()@;
    lemma_selected_body_appears(hs@, tags, i);
    lemma_main_script_position(m, step);
    if key == "before_step"@ {
        let j = choose|j: int| 0 <= j < before.len() && before[j] == b;
        assert(scr[j] == b);
    } else {
        let j = choose|j: int| 0 <= j < after.len() && after[j] == b;
        assert(scr[before.len() + 1 + j] == b);
    }
}

/// Planning is deterministic: two requests that the planner's contract ties
/// to the same plan, environment and step line agree in every part.
pub proof fn lemma_planning_deterministic(
    r1: StepRequest,
    r2: StepRequest,
    m: Mend,
    env: Seq<(String, String)>,
    step: Seq<char>,
)
    requires
        r1.matches_plan(m, env, step),
        r2.matches_plan(m, env, step),
    ensures
        r1.run@ == r2.run@,
        r1.run_resolved.deep_view() == r2.run_resolved.deep_view(),
        r1.commit_msg@ == r2.commit_msg@,
{
}

} // verus!
