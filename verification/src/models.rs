//! Saved models: the list kept in `models.json`, and adding, removing and
//! changing its entries.
use vstd::prelude::*;
use crate::json::{Json, JsonValue};
use crate::sessions::{as_str_opt, or_empty, str_of, str_or_empty};
use crate::text;
use crate::cli::strings_view;

verus! {

/// A model saved for quick selection.
pub struct SavedModel {
    pub id: String,
    pub name: String,
    pub provider: String,
    pub model: String,
    pub base_url: String,
    pub created_at: u64,
}

pub type ModelView = (Seq<char>, Seq<char>, Seq<char>, Seq<char>, Seq<char>, u64);

pub open spec fn model_view(m: SavedModel) -> ModelView {
    (m.id@, m.name@, m.provider@, m.model@, m.base_url@, m.created_at)
}

pub open spec fn models_view(s: Seq<SavedModel>) -> Seq<ModelView> {
    s.map_values(|m: SavedModel| model_view(m))
}

pub open spec fn u64_or(o: Option<Json>, d: u64) -> u64 {
    match o {
        Some(x) => match x.as_u64() {
            Some(n) => n as u64,
            None => d,
        },
        None => d,
    }
}

fn u64_of(o: Option<&JsonValue>, d: u64) -> (r: u64)
    ensures
        r == u64_or(match o { Some(x) => Some(x@), None => None }, d),
{
    match o {
        Some(x) => match x.as_u64() {
            Some(n) => n,
            None => d,
        },
        None => d,
    }
}

/// A saved model as the remote host reports it.
pub fn model_from_json(v: &JsonValue) -> (r: SavedModel)
    ensures
        r.id@ == str_or_empty(as_str_opt(v@.get("id"@))),
        r.name@ == str_or_empty(as_str_opt(v@.get("name"@))),
        r.provider@ == str_or_empty(as_str_opt(v@.get("provider"@))),
        r.model@ == str_or_empty(as_str_opt(v@.get("model"@))),
        r.base_url@ == str_or_empty(as_str_opt(v@.get("baseUrl"@))),
        r.created_at == u64_or(v@.get("createdAt"@), 0),
{
    SavedModel {
        id: or_empty(str_of(v.get("id"))),
        name: or_empty(str_of(v.get("name"))),
        provider: or_empty(str_of(v.get("provider"))),
        model: or_empty(str_of(v.get("model"))),
        base_url: or_empty(str_of(v.get("baseUrl"))),
        created_at: u64_of(v.get("createdAt"), 0),
    }
}

fn or_given(o: Option<String>, d: &str) -> (r: String)
    ensures
        r@ == match crate::settings::opt_string_view(o) {
            Some(s) => s,
            None => d@,
        },
{
    match o {
        Some(s) => s,
        None => text::owned(d),
    }
}

/// The model the remote host added: its answer, with what was asked for
/// (and the current time) where the answer says nothing.
pub fn added_model_from_json(v: &JsonValue, name: &str, provider: &str, model: &str, base_url: &str, now_secs: u64) -> (r: SavedModel)
    ensures
        r.id@ == str_or_empty(as_str_opt(v@.get("id"@))),
        r.name@ == match as_str_opt(v@.get("name"@)) { Some(s) => s, None => name@ },
        r.provider@ == match as_str_opt(v@.get("provider"@)) { Some(s) => s, None => provider@ },
        r.model@ == match as_str_opt(v@.get("model"@)) { Some(s) => s, None => model@ },
        r.base_url@ == match as_str_opt(v@.get("baseUrl"@)) { Some(s) => s, None => base_url@ },
        r.created_at == u64_or(v@.get("createdAt"@), now_secs),
{
    SavedModel {
        id: or_empty(str_of(v.get("id"))),
        name: or_given(str_of(v.get("name")), name),
        provider: or_given(str_of(v.get("provider")), provider),
        model: or_given(str_of(v.get("model")), model),
        base_url: or_given(str_of(v.get("baseUrl")), base_url),
        created_at: u64_of(v.get("createdAt"), now_secs),
    }
}

/// A model with this provider and model name is saved.
pub open spec fn has_model(s: Seq<ModelView>, provider: Seq<char>, model: Seq<char>) -> bool {
    exists|i: int| 0 <= i < s.len() && #[trigger] s[i].3 == model && s[i].2 == provider
}

fn copy_model(m: &SavedModel) -> (r: SavedModel)
    ensures
        model_view(r) == model_view(*m),
{
    SavedModel {
        id: text::owned(m.id.as_str()),
        name: text::owned(m.name.as_str()),
        provider: text::owned(m.provider.as_str()),
        model: text::owned(m.model.as_str()),
        base_url: text::owned(m.base_url.as_str()),
        created_at: m.created_at,
    }
}

/// Saves a model under a new id and time; the same provider and model
/// twice is refused.
pub fn add_model(
    models: &mut Vec<SavedModel>,
    id: &str,
    name: &str,
    provider: &str,
    model: &str,
    base_url: &str,
    now_secs: u64,
) -> (r: Result<SavedModel, String>)
    ensures
        has_model(models_view(old(models)@), provider@, model@) ==> (r matches Err(e) && e@ == "models.alreadyExists"@)
            && final(models)@ == old(models)@,
        !has_model(models_view(old(models)@), provider@, model@) ==> (r matches Ok(m)
            && model_view(m) == (id@, name@, provider@, model@, base_url@, now_secs))
            && models_view(final(models)@) == models_view(old(models)@).push((id@, name@, provider@, model@, base_url@, now_secs)),
{
    let ghost mv = models_view(models@);
    let mut i: usize = 0;
    while i < models.len()
        invariant
            i <= models.len(),
            models@ == old(models)@,
            mv == models_view(models@),
            forall|k: int| 0 <= k < i ==> !(mv[k].3 == model@ && mv[k].2 == provider@),
        decreases models.len() - i,
    {
        if text::str_eq(models[i].model.as_str(), model) && text::str_eq(models[i].provider.as_str(), provider) {
            assert(mv[i as int].3 == model@ && mv[i as int].2 == provider@);
            return Err(text::owned("models.alreadyExists"));
        }
        i += 1;
    }
    let m = SavedModel {
        id: text::owned(id),
        name: text::owned(name),
        provider: text::owned(provider),
        model: text::owned(model),
        base_url: text::owned(base_url),
        created_at: now_secs,
    };
    let c = copy_model(&m);
    let ghost before = models@;
    models.push(m);
    assert(models_view(models@) =~= models_view(before).push(model_view(c)));
    Ok(c)
}

/// The models with another id, in order.
pub open spec fn without_id(s: Seq<ModelView>, id: Seq<char>) -> Seq<ModelView>
    decreases s.len(),
{
    if s.len() == 0 {
        seq![]
    } else if s.last().0 == id {
        without_id(s.drop_last(), id)
    } else {
        without_id(s.drop_last(), id).push(s.last())
    }
}

/// Removes the models with this id; whether any was removed.
pub fn remove_model(models: &mut Vec<SavedModel>, id: &str) -> (removed: bool)
    ensures
        models_view(final(models)@) == without_id(models_view(old(models)@), id@),
        removed == (final(models)@.len() < old(models)@.len()),
{
    let ghost sv = models_view(models@);
    let ghost r0 = models@;
    let n0 = models.len();
    let mut kept: Vec<SavedModel> = Vec::new();
    let mut rest: Vec<SavedModel> = Vec::new();
    std::mem::swap(&mut rest, models);
    let ghost mut i: int = 0;
    assert(rest@.skip(0) =~= rest@);
    assert(models_view(kept@) =~= without_id(sv.take(0), id@));
    while rest.len() > 0
        invariant
            0 <= i <= sv.len(),
            sv == models_view(r0),
            n0 == r0.len(),
            rest@ == r0.skip(i),
            kept@.len() <= i,
            models_view(kept@) == without_id(sv.take(i), id@),
        decreases rest.len(),
    {
        let x = rest.remove(0);
        proof {
            assert(r0.skip(i)[0] == x);
            assert(sv.take(i + 1).drop_last() =~= sv.take(i));
            assert(sv.take(i + 1).last() == model_view(x));
        }
        if !text::str_eq(x.id.as_str(), id) {
            let ghost before = kept@;
            kept.push(x);
            assert(models_view(kept@) =~= models_view(before).push(model_view(x)));
        }
        proof {
            i = i + 1;
            assert(rest@ =~= r0.skip(i));
        }
    }
    assert(sv.take(i) =~= sv);
    let removed = kept.len() < n0;
    *models = kept;
    removed
}

/// Changes the first model with this id: the fields the update names
/// (`name`, `provider`, `model`, `baseUrl`) when they are strings. Whether
/// one was found.
pub fn update_model(models: &mut Vec<SavedModel>, id: &str, fields: &JsonValue) -> (found: bool)
    ensures
        final(models)@.len() == old(models)@.len(),
        !found ==> final(models)@ == old(models)@ && forall|k: int| 0 <= k < old(models)@.len() ==> #[trigger] old(models)@[k].id@ != id@,
        found ==> exists|i: int| #![trigger old(models)@[i]]
            0 <= i < old(models)@.len() && old(models)@[i].id@ == id@
            && (forall|k: int| 0 <= k < i ==> old(models)@[k].id@ != id@)
            && models_view(final(models)@) == models_view(old(models)@).update(i, {
                let o = model_view(old(models)@[i]);
                (
                    o.0,
                    match fields@.str_field("name"@) { Some(s) => s, None => o.1 },
                    match fields@.str_field("provider"@) { Some(s) => s, None => o.2 },
                    match fields@.str_field("model"@) { Some(s) => s, None => o.3 },
                    match fields@.str_field("baseUrl"@) { Some(s) => s, None => o.4 },
                    o.5,
                )
            }),
{
    let mut i: usize = 0;
    while i < models.len()
        invariant
            i <= models.len(),
            models@ == old(models)@,
            forall|k: int| 0 <= k < i ==> #[trigger] models@[k].id@ != id@,
        decreases models.len() - i,
    {
        if text::str_eq(models[i].id.as_str(), id) {
            let ghost before = models@;
            let mut m = copy_model(&models[i]);
            match fields.str_field("name") { Some(s) => m.name = s, None => {} }
            match fields.str_field("provider") { Some(s) => m.provider = s, None => {} }
            match fields.str_field("model") { Some(s) => m.model = s, None => {} }
            match fields.str_field("baseUrl") { Some(s) => m.base_url = s, None => {} }
            let ghost mv = model_view(m);
            let ghost o = model_view(before[i as int]);
            assert(mv == (
                o.0,
                match fields@.str_field("name"@) { Some(s) => s, None => o.1 },
                match fields@.str_field("provider"@) { Some(s) => s, None => o.2 },
                match fields@.str_field("model"@) { Some(s) => s, None => o.3 },
                match fields@.str_field("baseUrl"@) { Some(s) => s, None => o.4 },
                o.5,
            ));
            models.set(i, m);
            assert(models_view(models@) =~= models_view(before).update(i as int, mv));
            assert(before == old(models)@);
            assert(old(models)@[i as int].id@ == id@);
            assert(forall|k: int| 0 <= k < i ==> old(models)@[k].id@ != id@);
            assert(models_view(models@) == models_view(old(models)@).update(i as int, mv));
            assert(models@[i as int] == models@[i as int]);
            return true;
        }
        i += 1;
    }
    false
}

/// The remote update command's arguments: `models update <id>` and a
/// `--name`, `--provider`, `--model`, `--base-url` pair for each string field.
pub fn update_model_args(id: &str, fields: &JsonValue) -> (r: Vec<String>)
    ensures
        strings_view(r@) == seq!["models"@, "update"@, id@]
            + crate::kanban::opt_flag("--name"@, fields@.str_field("name"@))
            + crate::kanban::opt_flag("--provider"@, fields@.str_field("provider"@))
            + crate::kanban::opt_flag("--model"@, fields@.str_field("model"@))
            + crate::kanban::opt_flag("--base-url"@, fields@.str_field("baseUrl"@)),
{
    let mut a: Vec<String> = Vec::new();
    a.push(text::owned("models"));
    a.push(text::owned("update"));
    a.push(text::owned(id));
    let ghost s0 = strings_view(a@);
    assert(s0 =~= seq!["models"@, "update"@, id@]);
    match fields.str_field("name") { Some(s) => { a.push(text::owned("--name")); a.push(s); }, None => {} }
    let ghost s1 = strings_view(a@);
    assert(s1 =~= s0 + crate::kanban::opt_flag("--name"@, fields@.str_field("name"@)));
    match fields.str_field("provider") { Some(s) => { a.push(text::owned("--provider")); a.push(s); }, None => {} }
    let ghost s2 = strings_view(a@);
    assert(s2 =~= s1 + crate::kanban::opt_flag("--provider"@, fields@.str_field("provider"@)));
    match fields.str_field("model") { Some(s) => { a.push(text::owned("--model")); a.push(s); }, None => {} }
    let ghost s3 = strings_view(a@);
    assert(s3 =~= s2 + crate::kanban::opt_flag("--model"@, fields@.str_field("model"@)));
    match fields.str_field("baseUrl") { Some(s) => { a.push(text::owned("--base-url")); a.push(s); }, None => {} }
    assert(strings_view(a@) =~= s3 + crate::kanban::opt_flag("--base-url"@, fields@.str_field("baseUrl"@)));
    a
}


/// A model just saved is found by its provider and model, so saving the
/// same pair again is refused.
pub proof fn law_saved_model_refused_again(s: Seq<ModelView>, m: ModelView)
    ensures
        has_model(s.push(m), m.2, m.3),
{
    assert(s.push(m)[s.len() as int] == m);
}

/// After a removal no model with that id is left, and no model was added.
pub proof fn law_removed_model_gone(s: Seq<ModelView>, id: Seq<char>)
    ensures
        forall|k: int| 0 <= k < without_id(s, id).len() ==> (#[trigger] without_id(s, id)[k]).0 != id,
        without_id(s, id).len() <= s.len(),
    decreases s.len(),
{
    if s.len() > 0 {
        law_removed_model_gone(s.drop_last(), id);
        let w = without_id(s.drop_last(), id);
        if s.last().0 != id {
            assert forall|k: int| 0 <= k < w.push(s.last()).len() implies (#[trigger] w.push(s.last())[k]).0 != id by {
                if k < w.len() {
                    assert(w.push(s.last())[k] == w[k]);
                }
            }
        }
    }
}

/// Removal keeps every model whose id differs from the given one, in
/// order, and only those: the result is the list filtered by `id != given`.
pub proof fn law_removal_keeps_other_models(s: Seq<ModelView>, id: Seq<char>)
    ensures
        without_id(s, id) == s.filter(|x: ModelView| x.0 != id),
    decreases s.len(),
{
    reveal(Seq::filter);
    if s.len() > 0 {
        law_removal_keeps_other_models(s.drop_last(), id);
    }
}

} // verus!
