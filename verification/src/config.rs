//! Configuration values, their defaults and the rules that validate them.
//! Reading `config.toml` and the preference files is done by the program around
//! this library; what it reads lands in these types.
use vstd::prelude::*;
use crate::i18n::{self, Key, Lang, key_text, lang_named};
use crate::text::{chars_of, chars_eq, is_ws, is_ctrl, is_whitespace, is_control, push_str};

verus! {

/// Interface palette; auto uses the terminal's own colors.
#[derive(Debug, Clone, Copy, PartialEq, Eq, Structural)]
pub enum Theme {
    Auto,
    Light,
    Dark,
    Catppuccin,
    Nord,
    Dracula,
    CatppuccinLatte,
    SolarizedLight,
    GithubLight,
}

impl Default for Theme {
    fn default() -> (r: Self)
        ensures
            r == Theme::Auto,
    {
        Theme::Auto
    }
}

pub open spec fn theme_code(t: Theme) -> Seq<char> {
    match t {
        Theme::Auto => "auto"@,
        Theme::Light => "light"@,
        Theme::Dark => "dark"@,
        Theme::Catppuccin => "catppuccin"@,
        Theme::Nord => "nord"@,
        Theme::Dracula => "dracula"@,
        Theme::CatppuccinLatte => "catppuccin-latte"@,
        Theme::SolarizedLight => "solarized-light"@,
        Theme::GithubLight => "github-light"@,
    }
}

/// The theme whose code is exactly `value`.
pub open spec fn theme_named(value: Seq<char>) -> Option<Theme> {
    if value == "auto"@ {
        Some(Theme::Auto)
    } else if value == "light"@ {
        Some(Theme::Light)
    } else if value == "dark"@ {
        Some(Theme::Dark)
    } else if value == "catppuccin"@ {
        Some(Theme::Catppuccin)
    } else if value == "nord"@ {
        Some(Theme::Nord)
    } else if value == "dracula"@ {
        Some(Theme::Dracula)
    } else if value == "catppuccin-latte"@ {
        Some(Theme::CatppuccinLatte)
    } else if value == "solarized-light"@ {
        Some(Theme::SolarizedLight)
    } else if value == "github-light"@ {
        Some(Theme::GithubLight)
    } else {
        None
    }
}

fn word_is(cs: &Vec<char>, word: &str) -> (r: bool)
    ensures
        r == (cs@ == word@),
{
    let w = chars_of(word);
    chars_eq(cs.as_slice(), w.as_slice())
}

impl Theme {
    pub const ALL: [Theme; 9] = [
        Theme::Auto,
        Theme::Light,
        Theme::Dark,
        Theme::Catppuccin,
        Theme::Nord,
        Theme::Dracula,
        Theme::CatppuccinLatte,
        Theme::SolarizedLight,
        Theme::GithubLight,
    ];

    pub fn code(self) -> (r: &'static str)
        ensures
            r@ == theme_code(self),
    {
        match self {
            Theme::Auto => "auto",
            Theme::Light => "light",
            Theme::Dark => "dark",
            Theme::Catppuccin => "catppuccin",
            Theme::Nord => "nord",
            Theme::Dracula => "dracula",
            Theme::CatppuccinLatte => "catppuccin-latte",
            Theme::SolarizedLight => "solarized-light",
            Theme::GithubLight => "github-light",
        }
    }

    pub fn parse(value: &str) -> (r: Option<Self>)
        ensures
            r == theme_named(value@),
    {
        let cs = chars_of(value);
        if word_is(&cs, "auto") {
            Some(Theme::Auto)
        } else if word_is(&cs, "light") {
            Some(Theme::Light)
        } else if word_is(&cs, "dark") {
            Some(Theme::Dark)
        } else if word_is(&cs, "catppuccin") {
            Some(Theme::Catppuccin)
        } else if word_is(&cs, "nord") {
            Some(Theme::Nord)
        } else if word_is(&cs, "dracula") {
            Some(Theme::Dracula)
        } else if word_is(&cs, "catppuccin-latte") {
            Some(Theme::CatppuccinLatte)
        } else if word_is(&cs, "solarized-light") {
            Some(Theme::SolarizedLight)
        } else if word_is(&cs, "github-light") {
            Some(Theme::GithubLight)
        } else {
            None
        }
    }
}

/// Approval level, independent of the agent's Normal / Plan execution mode.
#[derive(Debug, Clone, Copy, PartialEq, Eq, Structural)]
pub enum PermissionMode {
    Normal,
    AskWhenNeed,
    AutoEdit,
    NeverAsk,
}

impl Default for PermissionMode {
    fn default() -> (r: Self)
        ensures
            r == PermissionMode::AskWhenNeed,
    {
        PermissionMode::AskWhenNeed
    }
}

pub open spec fn mode_key(m: PermissionMode) -> Key {
    match m {
        PermissionMode::Normal => Key::PermNormalDesc,
        PermissionMode::AskWhenNeed => Key::PermAskDesc,
        PermissionMode::AutoEdit => Key::PermAutoEditDesc,
        PermissionMode::NeverAsk => Key::PermNeverDesc,
    }
}

pub open spec fn mode_named(value: Seq<char>) -> Option<PermissionMode> {
    if value == "normal"@ {
        Some(PermissionMode::Normal)
    } else if value == "ask_when_need"@ {
        Some(PermissionMode::AskWhenNeed)
    } else if value == "auto_edit"@ {
        Some(PermissionMode::AutoEdit)
    } else if value == "never_ask"@ {
        Some(PermissionMode::NeverAsk)
    } else {
        None
    }
}

impl PermissionMode {
    pub const ALL: [PermissionMode; 4] = [
        PermissionMode::Normal,
        PermissionMode::AskWhenNeed,
        PermissionMode::AutoEdit,
        PermissionMode::NeverAsk,
    ];

    pub fn label(self) -> (r: &'static str)
        ensures
            r@ == match self {
                PermissionMode::Normal => "Normal"@,
                PermissionMode::AskWhenNeed => "Ask When Need"@,
                PermissionMode::AutoEdit => "Auto Edit"@,
                PermissionMode::NeverAsk => "Never Ask"@,
            },
    {
        match self {
            PermissionMode::Normal => "Normal",
            PermissionMode::AskWhenNeed => "Ask When Need",
            PermissionMode::AutoEdit => "Auto Edit",
            PermissionMode::NeverAsk => "Never Ask",
        }
    }

    pub fn description(self, lang: Lang) -> (r: &'static str)
        ensures
            r@ == key_text(lang, mode_key(self)),
    {
        match self {
            PermissionMode::Normal => i18n::text(lang, Key::PermNormalDesc),
            PermissionMode::AskWhenNeed => i18n::text(lang, Key::PermAskDesc),
            PermissionMode::AutoEdit => i18n::text(lang, Key::PermAutoEditDesc),
            PermissionMode::NeverAsk => i18n::text(lang, Key::PermNeverDesc),
        }
    }

    pub fn parse(value: &str) -> (r: Option<Self>)
        ensures
            r == mode_named(value@),
    {
        let cs = chars_of(value);
        if word_is(&cs, "normal") {
            Some(PermissionMode::Normal)
        } else if word_is(&cs, "ask_when_need") {
            Some(PermissionMode::AskWhenNeed)
        } else if word_is(&cs, "auto_edit") {
            Some(PermissionMode::AutoEdit)
        } else if word_is(&cs, "never_ask") {
            Some(PermissionMode::NeverAsk)
        } else {
            None
        }
    }
}

#[derive(Debug, Clone)]
pub struct PermissionsConfig {
    pub mode: PermissionMode,
    /// Explicit trusted tools in Ask When Need and Auto Edit.
    pub allow: Vec<String>,
    pub deny: Vec<String>,
}

/// Until a configuration chooses a level, every tool call asks for approval.
impl Default for PermissionsConfig {
    fn default() -> (r: Self)
        ensures
            r.mode == PermissionMode::Normal,
            r.allow@.len() == 0,
            r.deny@.len() == 0,
    {
        PermissionsConfig { mode: PermissionMode::Normal, allow: Vec::new(), deny: Vec::new() }
    }
}

#[derive(Debug, Clone, Default)]
pub struct HooksConfig {
    pub pre_tool_use: Vec<String>,
    pub post_tool_use: Vec<String>,
    pub turn_start: Vec<String>,
    pub turn_end: Vec<String>,
}

/// Model-specific capabilities; omitted metadata is never inherited from another
/// model. A context window, when present, is positive.
#[derive(Debug, Default)]
pub struct ModelConfig {
    pub model: String,
    pub reasoning_efforts: Vec<String>,
    pub reasoning_effort: Option<String>,
    pub context_window: Option<u64>,
}

pub struct ModelView {
    pub model: Seq<char>,
    pub reasoning_efforts: Seq<Seq<char>>,
    pub reasoning_effort: Option<Seq<char>>,
    pub context_window: Option<u64>,
}

pub open spec fn strings_view(v: Seq<String>) -> Seq<Seq<char>> {
    v.map_values(|s: String| s@)
}

impl View for ModelConfig {
    type V = ModelView;

    open spec fn view(&self) -> ModelView {
        ModelView {
            model: self.model@,
            reasoning_efforts: strings_view(self.reasoning_efforts@),
            reasoning_effort: crate::llm::opt_view(self.reasoning_effort),
            context_window: self.context_window,
        }
    }
}

pub fn clone_strings(v: &Vec<String>) -> (r: Vec<String>)
    ensures
        strings_view(r@) == strings_view(v@),
{
    let mut out: Vec<String> = Vec::new();
    let mut i: usize = 0;
    while i < v.len()
        invariant
            i <= v@.len(),
            strings_view(out@) == strings_view(v@.take(i as int)),
        decreases v@.len() - i,
    {
        let c = v[i].clone();
        let ghost before = out@;
        out.push(c);
        proof {
            assert(c@ == v@[i as int]@);
            assert(out@ == before.push(c));
            assert(strings_view(out@) =~= strings_view(before).push(c@));
            assert(v@.take(i as int + 1) =~= v@.take(i as int).push(v@[i as int]));
            assert(strings_view(v@.take(i as int + 1)) =~= strings_view(v@.take(i as int)).push(v@[i as int]@));
        }
        i = i + 1;
    }
    proof {
        assert(v@.take(v@.len() as int) =~= v@);
    }
    out
}

fn clone_opt(o: &Option<String>) -> (r: Option<String>)
    ensures
        crate::llm::opt_view(r) == crate::llm::opt_view(*o),
{
    match o {
        Some(s) => Some(s.clone()),
        None => None,
    }
}

impl ModelConfig {
    pub fn duplicate(&self) -> (r: Self)
        ensures
            r@ == self@,
    {
        ModelConfig {
            model: self.model.clone(),
            reasoning_efforts: clone_strings(&self.reasoning_efforts),
            reasoning_effort: clone_opt(&self.reasoning_effort),
            context_window: self.context_window,
        }
    }
}

impl Clone for ModelConfig {
    fn clone(&self) -> (r: Self)
        ensures
            r@ == self@,
    {
        self.duplicate()
    }
}

#[derive(Debug)]
pub struct LlmConfig {
    pub base_url: String,
    pub api_key: String,
    pub model: String,
    /// Additional selectable models using this endpoint and credentials.
    pub models: Vec<ModelConfig>,
    /// Provider-supported values, in the order shown by /effort.
    pub reasoning_efforts: Vec<String>,
    /// Initial value; defaults to the first configured effort.
    pub reasoning_effort: Option<String>,
    /// Model capacity in tokens, used as the context usage percentage denominator.
    pub context_window: Option<u64>,
    /// Extra HTTP headers sent with every request.
    pub headers: Vec<(String, String)>,
}

impl Default for LlmConfig {
    fn default() -> (r: Self)
        ensures
            r.base_url@ == "https://api.openai.com/v1"@,
            r.api_key@.len() == 0,
            r.model@.len() == 0,
            r.models@.len() == 0,
            r.reasoning_efforts@.len() == 0,
            r.reasoning_effort is None,
            r.context_window is None,
            r.headers@.len() == 0,
    {
        LlmConfig {
            base_url: "https://api.openai.com/v1".to_owned(),
            api_key: String::new(),
            model: String::new(),
            models: Vec::new(),
            reasoning_efforts: Vec::new(),
            reasoning_effort: None,
            context_window: None,
            headers: Vec::new(),
        }
    }
}

/// A model name or effort: nonempty, without white space or control characters.
pub open spec fn valid_token(s: Seq<char>) -> bool {
    s.len() > 0 && forall|i: int| 0 <= i < s.len() ==> !is_ws(#[trigger] s[i]) && !is_ctrl(s[i])
}

pub open spec fn name_error() -> Seq<char> {
    "model names must be nonempty, unique and contain no whitespace"@
}

pub open spec fn efforts_error(model: Seq<char>) -> Seq<char> {
    model + ": reasoning_efforts must contain unique, nonempty values without whitespace"@
}

pub open spec fn effort_error(model: Seq<char>) -> Seq<char> {
    model + ": reasoning_effort must be listed in reasoning_efforts"@
}

/// What is wrong with the model at position `i`, if anything.
pub open spec fn model_error(models: Seq<ModelView>, i: int) -> Option<Seq<char>> {
    let m = models[i];
    let e = m.reasoning_efforts;
    if !valid_token(m.model) || exists|j: int| 0 <= j < i && #[trigger] models[j].model == m.model {
        Some(name_error())
    } else if exists|k: int|
        0 <= k < e.len() && (!valid_token(#[trigger] e[k]) || exists|l: int| 0 <= l < k && e[l] == e[k]) {
        Some(efforts_error(m.model))
    } else if m.reasoning_effort is Some && !e.contains(m.reasoning_effort->0) {
        Some(effort_error(m.model))
    } else {
        None
    }
}

/// The first error at or after position `from`.
pub open spec fn first_model_error(models: Seq<ModelView>, from: int) -> Option<Seq<char>>
    decreases models.len() - from,
{
    if from < 0 || from >= models.len() {
        None
    } else if model_error(models, from) is Some {
        model_error(models, from)
    } else {
        first_model_error(models, from + 1)
    }
}

pub open spec fn models_view(v: Seq<ModelConfig>) -> Seq<ModelView> {
    v.map_values(|m: ModelConfig| m@)
}

/// The configured profiles, preceded by one built from the top-level fields when
/// no profile names the default model.
pub open spec fn candidate_models(c: LlmConfig) -> Seq<ModelView> {
    let ms = models_view(c.models@);
    if exists|i: int| 0 <= i < ms.len() && #[trigger] ms[i].model == c.model@ {
        ms
    } else {
        seq![
            ModelView {
                model: c.model@,
                reasoning_efforts: strings_view(c.reasoning_efforts@),
                reasoning_effort: crate::llm::opt_view(c.reasoning_effort),
                context_window: c.context_window,
            },
        ] + ms
    }
}

fn valid_token_exec(s: &String) -> (r: bool)
    ensures
        r == valid_token(s@),
{
    let cs = chars_of(s.as_str());
    if cs.len() == 0 {
        return false;
    }
    let mut i: usize = 0;
    while i < cs.len()
        invariant
            i <= cs@.len(),
            cs@ == s@,
            forall|j: int| 0 <= j < i ==> !is_ws(#[trigger] cs@[j]) && !is_ctrl(cs@[j]),
        decreases cs@.len() - i,
    {
        if is_whitespace(cs[i]) || is_control(cs[i]) {
            return false;
        }
        i = i + 1;
    }
    true
}

fn check_model(models: &Vec<ModelConfig>, i: usize) -> (r: Option<String>)
    requires
        i < models@.len(),
    ensures
        match (r, model_error(models_view(models@), i as int)) {
            (Some(a), Some(b)) => a@ == b,
            (None, None) => true,
            _ => false,
        },
{
    let ghost ms = models_view(models@);
    let m = &models[i];
    proof {
        assert(ms[i as int] == m@);
    }
    let mut dup = false;
    let mut j: usize = 0;
    while j < i
        invariant
            j <= i < models@.len(),
            ms == models_view(models@),
            ms[i as int] == m@,
            dup == exists|k: int| 0 <= k < j && #[trigger] ms[k].model == m@.model,
        decreases i - j,
    {
        if models[j].model == m.model {
            proof {
                assert(ms[j as int].model == m@.model);
            }
            dup = true;
        }
        j = j + 1;
    }
    if !valid_token_exec(&m.model) || dup {
        return Some("model names must be nonempty, unique and contain no whitespace".to_owned());
    }
    let e = &m.reasoning_efforts;
    let ghost ev = m@.reasoning_efforts;
    let mut k: usize = 0;
    while k < e.len()
        invariant
            k <= e@.len(),
            ev == strings_view(e@),
            i < models@.len(),
            ms == models_view(models@),
            ms[i as int] == m@,
            ev == m@.reasoning_efforts,
            valid_token(m@.model),
            !exists|j: int| 0 <= j < i && #[trigger] ms[j].model == m@.model,
            forall|a: int| 0 <= a < k ==> valid_token(#[trigger] ev[a]) && forall|l: int| 0 <= l < a ==> ev[l] != ev[a],
        decreases e@.len() - k,
    {
        let mut repeated = false;
        let mut l: usize = 0;
        while l < k
            invariant
                l <= k < e@.len(),
                ev == strings_view(e@),
                repeated == exists|x: int| 0 <= x < l && ev[x] == ev[k as int],
            decreases k - l,
        {
            if e[l] == e[k] {
                proof {
                    assert(ev[l as int] == ev[k as int]);
                }
                repeated = true;
            }
            l = l + 1;
        }
        if !valid_token_exec(&e[k]) || repeated {
            let mut msg = m.model.clone();
            push_str(&mut msg, ": reasoning_efforts must contain unique, nonempty values without whitespace");
            proof {
                assert(ev[k as int] == e@[k as int]@);
                assert(0 <= k < ev.len() && (!valid_token(ev[k as int]) || exists|y: int| 0 <= y < k && ev[y] == ev[k as int]));
            }
            return Some(msg);
        }
        k = k + 1;
    }
    if let Some(effort) = &m.reasoning_effort {
        let mut found = false;
        let mut x: usize = 0;
        while x < e.len()
            invariant
                x <= e@.len(),
                ev == strings_view(e@),
                found == exists|y: int| 0 <= y < x && ev[y] == effort@,
            decreases e@.len() - x,
        {
            if e[x] == *effort {
                proof {
                    assert(ev[x as int] == e@[x as int]@);
                }
                found = true;
            }
            x = x + 1;
        }
        if !found {
            proof {
                if ev.contains(effort@) {
                    let y = choose|y: int| 0 <= y < ev.len() && ev[y] == effort@;
                    assert(ev[y] == effort@);
                }
                assert(!exists|k: int|
                    0 <= k < ev.len() && (!valid_token(#[trigger] ev[k]) || exists|l: int| 0 <= l < k && ev[l] == ev[k]));
                assert(ms[i as int].reasoning_effort == Some(effort@));
            }
            let mut msg = m.model.clone();
            push_str(&mut msg, ": reasoning_effort must be listed in reasoning_efforts");
            return Some(msg);
        }
        proof {
            let y = choose|y: int| 0 <= y < e@.len() && ev[y] == effort@;
            assert(ev.contains(effort@));
        }
    }
    proof {
        assert(!exists|k: int|
            0 <= k < ev.len() && (!valid_token(#[trigger] ev[k]) || exists|l: int| 0 <= l < k && ev[l] == ev[k]));
    }
    None
}

impl LlmConfig {
    /// The selectable model profiles, or the first configuration error.
    pub fn selectable_models(&self) -> (r: Result<Vec<ModelConfig>, String>)
        ensures
            match (r, first_model_error(candidate_models(*self), 0)) {
                (Ok(v), None) => models_view(v@) == candidate_models(*self),
                (Err(e), Some(b)) => e@ == b,
                _ => false,
            },
    {
        let mut models: Vec<ModelConfig> = Vec::new();
        let mut present = false;
        let mut i: usize = 0;
        while i < self.models.len()
            invariant
                i <= self.models@.len(),
                models_view(models@) == models_view(self.models@.take(i as int)),
                present == exists|k: int| 0 <= k < i && #[trigger] models_view(self.models@)[k].model == self.model@,
            decreases self.models@.len() - i,
        {
            proof {
                assert(models_view(self.models@)[i as int] == self.models@[i as int]@);
            }
            let same = self.models[i].model == self.model;
            proof {
                assert(same == (models_view(self.models@)[i as int].model == self.model@));
            }
            if same {
                present = true;
            }
            let d = self.models[i].duplicate();
            let ghost before = models@;
            models.push(d);
            proof {
                assert(models_view(models@) =~= models_view(before).push(d@));
                assert(self.models@.take(i as int + 1) =~= self.models@.take(i as int).push(self.models@[i as int]));
                assert(models_view(self.models@.take(i as int + 1)) =~= models_view(self.models@.take(i as int)).push(self.models@[i as int]@));
            }
            i = i + 1;
        }
        proof {
            assert(self.models@.take(self.models@.len() as int) =~= self.models@);
        }
        if !present {
            let first = ModelConfig {
                model: self.model.clone(),
                reasoning_efforts: clone_strings(&self.reasoning_efforts),
                reasoning_effort: clone_opt(&self.reasoning_effort),
                context_window: self.context_window,
            };
            let ghost rest = models@;
            models.insert(0, first);
            proof {
                assert(models_view(models@) =~= seq![first@] + models_view(rest));
            }
        }
        let ghost ms = models_view(models@);
        proof {
            assert(ms == candidate_models(*self));
        }
        let mut idx: usize = 0;
        while idx < models.len()
            invariant
                idx <= models@.len(),
                ms == models_view(models@),
                ms == candidate_models(*self),
                first_model_error(ms, 0) == first_model_error(ms, idx as int),
            decreases models@.len() - idx,
        {
            match check_model(&models, idx) {
                Some(e) => {
                    proof {
                        assert(first_model_error(ms, idx as int) == model_error(ms, idx as int));
                    }
                    return Err(e);
                },
                None => {
                    proof {
                        assert(first_model_error(ms, idx as int) == first_model_error(ms, idx + 1));
                    }
                },
            }
            idx = idx + 1;
        }
        proof {
            assert(first_model_error(ms, idx as int) is None);
        }
        Ok(models)
    }
}

#[derive(Debug)]
pub struct AgentConfig {
    /// None means unlimited; zero disables tool execution.
    pub max_tool_rounds: Option<usize>,
    pub max_retries: usize,
    /// Serialized request byte budget including tools and a 4096-byte response reserve.
    pub compact_threshold: usize,
    pub subagent_max_rounds: Option<usize>,
    /// Directory where chat transcripts (session jsonl) are appended.
    pub session_dir: String,
    /// Structured curated memory store.
    pub memory_file: String,
    pub memory_read: bool,
    pub memory_write: bool,
    /// UTF-8 bytes; clamped to 1024..=32000 at the memory interface.
    pub memory_index_bytes: usize,
}

/// The memory store under Koala's home directory: `<home>/.koala/memory.json`.
pub open spec fn memory_file_in(home: Seq<char>) -> Seq<char> {
    home + "/.koala/memory.json"@
}

impl AgentConfig {
    /// The defaults, for a user whose home directory is `home`.
    pub fn defaults(home: &str) -> (r: Self)
        ensures
            r.max_tool_rounds is None,
            r.max_retries == 5,
            r.compact_threshold == 40_000,
            r.subagent_max_rounds is None,
            r.session_dir@ == ".koala/session"@,
            r.memory_file@ == memory_file_in(home@),
            r.memory_read,
            r.memory_write,
            r.memory_index_bytes == 4000,
    {
        let mut memory_file = home.to_owned();
        push_str(&mut memory_file, "/.koala/memory.json");
        AgentConfig {
            max_tool_rounds: None,
            max_retries: 5,
            compact_threshold: 40_000,
            subagent_max_rounds: None,
            session_dir: ".koala/session".to_owned(),
            memory_file,
            memory_read: true,
            memory_write: true,
            memory_index_bytes: 4000,
        }
    }
}

/// Extension manifests to load at startup, in the order given, and how long one
/// extension request may take. Extensions are trusted local code.
#[derive(Debug, Clone)]
pub struct ExtensionsConfig {
    pub manifests: Vec<String>,
    pub timeout_secs: u64,
}

impl Default for ExtensionsConfig {
    fn default() -> (r: Self)
        ensures
            r.manifests@.len() == 0,
            r.timeout_secs == 30,
    {
        ExtensionsConfig { manifests: Vec::new(), timeout_secs: 30 }
    }
}

#[derive(Debug)]
pub struct Config {
    /// Interface language for the TUI and system prompts; `/lang` toggles it.
    pub lang: Lang,
    /// Interface palette; auto uses the terminal's own colors.
    pub theme: Theme,
    pub theme_path: Option<String>,
    /// Runtime preference location, never supplied by config.toml.
    pub language_path: Option<String>,
    pub llm: LlmConfig,
    pub agent: AgentConfig,
    pub permissions: PermissionsConfig,
    pub hooks: HooksConfig,
    pub extensions: ExtensionsConfig,
}

/// The environment overrides: each present variable replaces its field; themes and
/// languages that do not parse are ignored.
pub open spec fn env_applied(
    c: Config,
    base_url: Option<String>,
    api_key: Option<String>,
    model: Option<String>,
    theme: Option<String>,
    lang: Option<String>,
) -> Config {
    let llm1 = match base_url { Some(v) => LlmConfig { base_url: v, ..c.llm }, None => c.llm };
    let llm2 = match api_key { Some(v) => LlmConfig { api_key: v, ..llm1 }, None => llm1 };
    let llm3 = match model { Some(v) => LlmConfig { model: v, ..llm2 }, None => llm2 };
    let th = match theme {
        Some(v) => match theme_named(v@) { Some(t) => t, None => c.theme },
        None => c.theme,
    };
    let lg = match lang {
        Some(v) => match lang_named(v@) { Some(l) => l, None => c.lang },
        None => c.lang,
    };
    Config { llm: llm3, theme: th, lang: lg, ..c }
}

impl Config {
    /// Applies the `KOALA_*` overrides whose values the caller looked up.
    pub fn apply_env_values(
        &mut self,
        base_url: Option<String>,
        api_key: Option<String>,
        model: Option<String>,
        theme: Option<String>,
        lang: Option<String>,
    )
        ensures
            *final(self) == env_applied(*old(self), base_url, api_key, model, theme, lang),
    {
        if let Some(v) = base_url {
            self.llm.base_url = v;
        }
        if let Some(v) = api_key {
            self.llm.api_key = v;
        }
        if let Some(v) = model {
            self.llm.model = v;
        }
        if let Some(v) = theme {
            if let Some(t) = Theme::parse(v.as_str()) {
                self.theme = t;
            }
        }
        if let Some(v) = lang {
            if let Some(l) = Lang::parse(v.as_str()) {
                self.lang = l;
            }
        }
    }

    /// Applies the `KOALA_*` overrides, looking each one up with `get`.
    pub fn apply_env_with<F: Fn(&str) -> Option<String>>(&mut self, get: F)
        requires
            forall|k: &str| get.requires((k,)),
        ensures
            exists|b: Option<String>, a: Option<String>, m: Option<String>, t: Option<String>, l: Option<String>|
                {
                    &&& get.ensures(("KOALA_BASE_URL",), b)
                    &&& get.ensures(("KOALA_API_KEY",), a)
                    &&& get.ensures(("KOALA_MODEL",), m)
                    &&& get.ensures(("KOALA_THEME",), t)
                    &&& get.ensures(("KOALA_LANG",), l)
                    &&& *final(self) == env_applied(*old(self), b, a, m, t, l)
                },
    {
        let b = get("KOALA_BASE_URL");
        let a = get("KOALA_API_KEY");
        let m = get("KOALA_MODEL");
        let t = get("KOALA_THEME");
        let l = get("KOALA_LANG");
        self.apply_env_values(b, a, m, t, l);
    }
}

} // verus!
