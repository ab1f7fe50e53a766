//! Switching between the configured models and their reasoning efforts.
use vstd::prelude::*;
use crate::config::{LlmConfig, ModelConfig, ModelView, clone_strings, strings_view, first_model_error, candidate_models, models_view};
use crate::i18n::{Key, Lang, key_text, fill, fill_all, text};
use crate::text::{join, seq_join};
use crate::json::str_eq;

verus! {

/// What switching to a model sets: its name, the effort it starts with, the
/// efforts it offers and its context window.
#[derive(Debug)]
pub struct ModelSelection {
    pub model: String,
    pub effort: Option<String>,
    pub reasoning_efforts: Vec<String>,
    pub context_window: Option<u64>,
}

/// The first configured model of this name.
pub open spec fn model_index(models: Seq<ModelView>, name: Seq<char>) -> Option<int> {
    if exists|i: int| 0 <= i < models.len() && models[i].model == name {
        Some(choose|i: int| 0 <= i < models.len() && models[i].model == name
            && forall|j: int| 0 <= j < i ==> models[j].model != name)
    } else {
        None
    }
}

/// The effort a model starts with: its own, else the first it offers.
pub open spec fn initial_effort(m: ModelView) -> Option<Seq<char>> {
    match m.reasoning_effort {
        Some(e) => Some(e),
        None => if m.reasoning_efforts.len() > 0 { Some(m.reasoning_efforts[0]) } else { None },
    }
}

pub open spec fn opt_view(o: Option<String>) -> Option<Seq<char>> {
    match o {
        Some(s) => Some(s@),
        None => None,
    }
}

/// Switches to a configured model. An unknown name is refused; the model already
/// in use needs no switch (`None`).
pub fn select_model(models: &Vec<ModelConfig>, current: &str, name: &str, lang: Lang)
    -> (r: Result<Option<ModelSelection>, String>)
    ensures
        match model_index(models_view(models@), name@) {
            None => r matches Err(e) && e@ == fill_all(key_text(lang, Key::ErrModelNotConfigured), seq![("name"@, name@)]),
            Some(i) => if current@ == name@ {
                r matches Ok(None)
            } else {
                r matches Ok(Some(s)) && {
                    let m = models_view(models@)[i];
                    &&& s.model@ == m.model
                    &&& opt_view(s.effort) == initial_effort(m)
                    &&& strings_view(s.reasoning_efforts@) == m.reasoning_efforts
                    &&& s.context_window == m.context_window
                }
            },
        },
{
    let ghost mv = models_view(models@);
    let mut i: usize = 0;
    while i < models.len()
        invariant
            i <= models@.len(),
            mv == models_view(models@),
            forall|j: int| 0 <= j < i ==> mv[j].model != name@,
        decreases models@.len() - i,
    {
        if str_eq(models[i].model.as_str(), name) {
            proof {
                assert(mv[i as int].model == name@);
                let c = choose|k: int| 0 <= k < mv.len() && mv[k].model == name@
                    && forall|j: int| 0 <= j < k ==> mv[j].model != name@;
                assert(0 <= i < mv.len() && mv[i as int].model == name@
                    && forall|j: int| 0 <= j < i ==> mv[j].model != name@);
                if c < i {
                    assert(mv[c].model != name@);
                } else if c > i {
                    assert(mv[i as int].model != name@);
                }
            }
            if str_eq(current, name) {
                return Ok(None);
            }
            let m = &models[i];
            let effort = match &m.reasoning_effort {
                Some(e) => Some(e.clone()),
                None => if m.reasoning_efforts.len() > 0 {
                    Some(m.reasoning_efforts[0].clone())
                } else {
                    None
                },
            };
            return Ok(Some(ModelSelection {
                model: m.model.clone(),
                effort,
                reasoning_efforts: clone_strings(&m.reasoning_efforts),
                context_window: m.context_window,
            }));
        }
        i = i + 1;
    }
    let args = [("name", name)];
    proof {
        assert(crate::i18n::args_view(args@) =~= seq![("name"@, name@)]);
    }
    Err(fill(lang, Key::ErrModelNotConfigured, &args))
}

/// The answer to choosing a reasoning effort among those a model offers.
pub open spec fn effort_outcome(efforts: Seq<Seq<char>>, requested: Seq<char>, lang: Lang) -> Result<Seq<char>, Seq<char>> {
    if efforts.len() == 0 {
        Err(key_text(lang, Key::NoteNoReasoningEfforts))
    } else if efforts.contains(requested) {
        Ok(requested)
    } else {
        Err(fill_all(
            key_text(lang, Key::ErrUnsupportedEffort),
            seq![("requested"@, requested), ("available"@, seq_join(efforts, ", "@))],
        ))
    }
}

pub open spec fn result_view(r: Result<String, String>) -> Result<Seq<char>, Seq<char>> {
    match r {
        Ok(s) => Ok(s@),
        Err(e) => Err(e@),
    }
}

/// Chooses a reasoning effort: it must be one the model offers.
pub fn set_reasoning_effort(efforts: &Vec<String>, requested: &str, lang: Lang) -> (r: Result<String, String>)
    ensures
        result_view(r) == effort_outcome(strings_view(efforts@), requested@, lang),
{
    let ghost ev = strings_view(efforts@);
    if efforts.len() == 0 {
        return Err(text(lang, Key::NoteNoReasoningEfforts).to_owned());
    }
    let mut i: usize = 0;
    while i < efforts.len()
        invariant
            i <= efforts@.len(),
            ev == strings_view(efforts@),
            forall|j: int| 0 <= j < i ==> ev[j] != requested@,
        decreases efforts@.len() - i,
    {
        if str_eq(efforts[i].as_str(), requested) {
            proof {
                assert(ev[i as int] == requested@);
            }
            return Ok(efforts[i].clone());
        }
        i = i + 1;
    }
    let available = join(efforts, ", ");
    let args = [("requested", requested), ("available", available.as_str())];
    proof {
        assert(!ev.contains(requested@));
        assert(crate::i18n::args_view(args@) =~= seq![("requested"@, requested@), ("available"@, seq_join(ev, ", "@))]);
    }
    Err(fill(lang, Key::ErrUnsupportedEffort, &args))
}

/// Why an agent cannot start with a configuration.
#[derive(Debug, PartialEq, Eq)]
pub enum SettingsError {
    /// `llm.model` is empty.
    MissingModel,
    /// The model profiles or the compaction threshold are invalid.
    InvalidModelSettings(String),
}

/// The message of a threshold outside `1..=100`.
pub open spec fn threshold_message() -> Seq<char> {
    "agent.compact_threshold must be a percentage from 1 to 100 (default 75); legacy byte budgets are no longer supported"@
}

/// The settings an agent starts with: the selectable models, once the default
/// model is named, every profile is valid and the compaction threshold is a
/// percentage.
pub fn check_settings(llm: &LlmConfig, compact_threshold: usize) -> (r: Result<Vec<ModelConfig>, SettingsError>)
    ensures
        llm.model@.len() == 0 ==> r matches Err(SettingsError::MissingModel),
        llm.model@.len() > 0 ==> match first_model_error(candidate_models(*llm), 0) {
            Some(e) => r matches Err(SettingsError::InvalidModelSettings(m)) && m@ == e,
            None => if 1 <= compact_threshold <= 100 {
                r matches Ok(v) && models_view(v@) == candidate_models(*llm)
            } else {
                r matches Err(SettingsError::InvalidModelSettings(m)) && m@ == threshold_message()
            },
        },
{
    if crate::text::chars_of(llm.model.as_str()).len() == 0 {
        return Err(SettingsError::MissingModel);
    }
    let models = match llm.selectable_models() {
        Ok(m) => m,
        Err(e) => return Err(SettingsError::InvalidModelSettings(e)),
    };
    if !(1 <= compact_threshold && compact_threshold <= 100) {
        return Err(SettingsError::InvalidModelSettings(
            "agent.compact_threshold must be a percentage from 1 to 100 (default 75); legacy byte budgets are no longer supported".to_owned(),
        ));
    }
    Ok(models)
}

} // verus!
