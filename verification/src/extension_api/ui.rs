//! Declarative UI wire types and the limits every published batch must respect.
use vstd::prelude::*;
use crate::text::{utf8_len, is_ctrl, chars_of, exceeds_bytes, is_control};
use crate::json::JsonValue;

verus! {

/// Bytes of text that one UI string may hold.
pub const MAX_TEXT: usize = 16384;

#[derive(Debug, Clone, Copy, PartialEq, Eq, Structural)]
pub enum Placement {
    AboveEditor,
    BelowEditor,
}

#[derive(Debug, Clone, Copy, PartialEq, Eq, Structural)]
pub enum SurfaceKind {
    Widget,
    Dialog,
}

#[derive(Debug, Clone, Copy, PartialEq, Eq, Structural)]
pub enum Level {
    Info,
    Warning,
    Error,
}

#[derive(Debug)]
pub struct SelectOption {
    pub id: String,
    pub label: String,
}

#[derive(Debug)]
pub enum UiBlock {
    Text { text: String },
    Markdown { text: String },
    Button { id: String, label: String },
    Select { id: String, label: String, options: Vec<SelectOption> },
    Input { id: String, label: String, value: String },
}

#[derive(Debug)]
pub enum Dialog {
    Confirm { title: String, text: String },
    Form { title: String, blocks: Vec<UiBlock> },
}

#[derive(Debug)]
pub enum UiCommand {
    Notify { level: Level, text: String },
    SetStatus { id: String, text: String },
    RemoveStatus { id: String },
    SetWidget { id: String, placement: Placement, blocks: Vec<UiBlock> },
    RemoveWidget { id: String },
    OpenDialog { id: String, dialog: Dialog },
    CloseDialog { id: String },
}

#[derive(Debug, Clone, Copy, PartialEq, Eq, Structural)]
pub enum UiEventType {
    Mount,
    Click,
    Select,
    Submit,
    Confirm,
    Cancel,
}

/// An interaction reported by a frontend.
#[derive(Debug)]
pub struct UiInputEvent {
    pub kind: UiEventType,
    pub event_id: String,
    pub surface: Option<SurfaceKind>,
    pub surface_id: Option<String>,
    pub revision: u64,
    pub control_id: Option<String>,
    pub value: JsonValue,
}

// ---------------------------------------------------------------------------
// Views: the same data with texts as character sequences.

pub struct OptionV {
    pub id: Seq<char>,
    pub label: Seq<char>,
}

pub enum BlockV {
    Text { text: Seq<char> },
    Markdown { text: Seq<char> },
    Button { id: Seq<char>, label: Seq<char> },
    Select { id: Seq<char>, label: Seq<char>, options: Seq<OptionV> },
    Input { id: Seq<char>, label: Seq<char>, value: Seq<char> },
}

pub enum DialogV {
    Confirm { title: Seq<char>, text: Seq<char> },
    Form { title: Seq<char>, blocks: Seq<BlockV> },
}

pub enum CommandV {
    Notify { level: Level, text: Seq<char> },
    SetStatus { id: Seq<char>, text: Seq<char> },
    RemoveStatus { id: Seq<char> },
    SetWidget { id: Seq<char>, placement: Placement, blocks: Seq<BlockV> },
    RemoveWidget { id: Seq<char> },
    OpenDialog { id: Seq<char>, dialog: DialogV },
    CloseDialog { id: Seq<char> },
}

impl View for SelectOption {
    type V = OptionV;

    open spec fn view(&self) -> OptionV {
        OptionV { id: self.id@, label: self.label@ }
    }
}

pub open spec fn options_view(v: Seq<SelectOption>) -> Seq<OptionV> {
    v.map_values(|o: SelectOption| o@)
}

impl View for UiBlock {
    type V = BlockV;

    open spec fn view(&self) -> BlockV {
        match self {
            UiBlock::Text { text } => BlockV::Text { text: text@ },
            UiBlock::Markdown { text } => BlockV::Markdown { text: text@ },
            UiBlock::Button { id, label } => BlockV::Button { id: id@, label: label@ },
            UiBlock::Select { id, label, options } => BlockV::Select {
                id: id@,
                label: label@,
                options: options_view(options@),
            },
            UiBlock::Input { id, label, value } => BlockV::Input { id: id@, label: label@, value: value@ },
        }
    }
}

pub open spec fn blocks_view(v: Seq<UiBlock>) -> Seq<BlockV> {
    v.map_values(|b: UiBlock| b@)
}

impl View for Dialog {
    type V = DialogV;

    open spec fn view(&self) -> DialogV {
        match self {
            Dialog::Confirm { title, text } => DialogV::Confirm { title: title@, text: text@ },
            Dialog::Form { title, blocks } => DialogV::Form { title: title@, blocks: blocks_view(blocks@) },
        }
    }
}

impl View for UiCommand {
    type V = CommandV;

    open spec fn view(&self) -> CommandV {
        match self {
            UiCommand::Notify { level, text } => CommandV::Notify { level: *level, text: text@ },
            UiCommand::SetStatus { id, text } => CommandV::SetStatus { id: id@, text: text@ },
            UiCommand::RemoveStatus { id } => CommandV::RemoveStatus { id: id@ },
            UiCommand::SetWidget { id, placement, blocks } => CommandV::SetWidget {
                id: id@,
                placement: *placement,
                blocks: blocks_view(blocks@),
            },
            UiCommand::RemoveWidget { id } => CommandV::RemoveWidget { id: id@ },
            UiCommand::OpenDialog { id, dialog } => CommandV::OpenDialog { id: id@, dialog: dialog@ },
            UiCommand::CloseDialog { id } => CommandV::CloseDialog { id: id@ },
        }
    }
}

pub open spec fn commands_view(v: Seq<UiCommand>) -> Seq<CommandV> {
    v.map_values(|c: UiCommand| c@)
}

/// The control id of a block: buttons, selects and inputs have one.
pub open spec fn block_id(b: BlockV) -> Option<Seq<char>> {
    match b {
        BlockV::Button { id, .. } => Some(id),
        BlockV::Select { id, .. } => Some(id),
        BlockV::Input { id, .. } => Some(id),
        _ => None,
    }
}

impl UiBlock {
    pub fn id(&self) -> (r: Option<&str>)
        ensures
            match r {
                Some(s) => block_id(self@) == Some(s@),
                None => block_id(self@) is None,
            },
    {
        match self {
            UiBlock::Button { id, .. } => Some(id.as_str()),
            UiBlock::Select { id, .. } => Some(id.as_str()),
            UiBlock::Input { id, .. } => Some(id.as_str()),
            _ => None,
        }
    }
}

// ---------------------------------------------------------------------------
// Copies.

pub fn clone_option(o: &SelectOption) -> (r: SelectOption)
    ensures
        r@ == o@,
{
    SelectOption { id: o.id.clone(), label: o.label.clone() }
}

pub fn clone_options(v: &Vec<SelectOption>) -> (r: Vec<SelectOption>)
    ensures
        options_view(r@) == options_view(v@),
{
    let mut out: Vec<SelectOption> = Vec::new();
    let mut i: usize = 0;
    while i < v.len()
        invariant
            i <= v@.len(),
            options_view(out@) == options_view(v@.take(i as int)),
        decreases v@.len() - i,
    {
        let c = clone_option(&v[i]);
        let ghost prev = out@;
        out.push(c);
        proof {
            assert(v@.take(i as int + 1) =~= v@.take(i as int).push(v@[i as int]));
            assert(options_view(out@) =~= options_view(prev).push(c@));
            assert(options_view(v@.take(i as int + 1)) =~= options_view(v@.take(i as int)).push(v@[i as int]@));
        }
        i = i + 1;
    }
    proof {
        assert(v@.take(v@.len() as int) =~= v@);
    }
    out
}

pub fn clone_block(b: &UiBlock) -> (r: UiBlock)
    ensures
        r@ == b@,
{
    match b {
        UiBlock::Text { text } => UiBlock::Text { text: text.clone() },
        UiBlock::Markdown { text } => UiBlock::Markdown { text: text.clone() },
        UiBlock::Button { id, label } => UiBlock::Button { id: id.clone(), label: label.clone() },
        UiBlock::Select { id, label, options } => UiBlock::Select {
            id: id.clone(),
            label: label.clone(),
            options: clone_options(options),
        },
        UiBlock::Input { id, label, value } => UiBlock::Input {
            id: id.clone(),
            label: label.clone(),
            value: value.clone(),
        },
    }
}

pub fn clone_blocks(v: &Vec<UiBlock>) -> (r: Vec<UiBlock>)
    ensures
        blocks_view(r@) == blocks_view(v@),
{
    let mut out: Vec<UiBlock> = Vec::new();
    let mut i: usize = 0;
    while i < v.len()
        invariant
            i <= v@.len(),
            blocks_view(out@) == blocks_view(v@.take(i as int)),
        decreases v@.len() - i,
    {
        let c = clone_block(&v[i]);
        let ghost prev = out@;
        out.push(c);
        proof {
            assert(v@.take(i as int + 1) =~= v@.take(i as int).push(v@[i as int]));
            assert(blocks_view(out@) =~= blocks_view(prev).push(c@));
            assert(blocks_view(v@.take(i as int + 1)) =~= blocks_view(v@.take(i as int)).push(v@[i as int]@));
        }
        i = i + 1;
    }
    proof {
        assert(v@.take(v@.len() as int) =~= v@);
    }
    out
}

pub fn clone_dialog(d: &Dialog) -> (r: Dialog)
    ensures
        r@ == d@,
{
    match d {
        Dialog::Confirm { title, text } => Dialog::Confirm { title: title.clone(), text: text.clone() },
        Dialog::Form { title, blocks } => Dialog::Form { title: title.clone(), blocks: clone_blocks(blocks) },
    }
}

// ---------------------------------------------------------------------------
// Validation. Checks run in order and the first failure is reported.

/// Bytes of the JSON encoding that one batch may take.
pub const MAX_BATCH_BYTES: usize = 262144;

pub open spec fn then(first: Result<(), Seq<char>>, next: Result<(), Seq<char>>) -> Result<(), Seq<char>> {
    match first {
        Err(e) => Err(e),
        Ok(_) => next,
    }
}

pub open spec fn check_text_spec(text: Seq<char>) -> Result<(), Seq<char>> {
    if utf8_len(text) > MAX_TEXT {
        Err("UI text exceeds 16 KiB"@)
    } else {
        Ok(())
    }
}

/// A control or surface id: non-empty, at most 128 bytes, no control characters.
pub open spec fn id_ok(id: Seq<char>) -> bool {
    id.len() > 0 && utf8_len(id) <= 128 && forall|i: int| 0 <= i < id.len() ==> !is_ctrl(#[trigger] id[i])
}

pub open spec fn check_id_spec(id: Seq<char>) -> Result<(), Seq<char>> {
    if id_ok(id) {
        Ok(())
    } else {
        Err("invalid UI id"@)
    }
}

pub open spec fn option_ids(opts: Seq<OptionV>) -> Seq<Seq<char>> {
    opts.map_values(|o: OptionV| o.id)
}

pub open spec fn check_option(o: OptionV, seen: Seq<Seq<char>>) -> Result<(), Seq<char>> {
    then(
        check_id_spec(o.id),
        then(
            check_text_spec(o.label),
            if seen.contains(o.id) {
                Err("duplicate option id"@)
            } else {
                Ok(())
            },
        ),
    )
}

pub open spec fn check_options(opts: Seq<OptionV>) -> Result<(), Seq<char>>
    decreases opts.len(),
{
    if opts.len() == 0 {
        Ok(())
    } else {
        then(check_options(opts.drop_last()), check_option(opts.last(), option_ids(opts.drop_last())))
    }
}

/// The ids of the blocks that have one, in order.
pub open spec fn block_ids(blocks: Seq<BlockV>) -> Seq<Seq<char>>
    decreases blocks.len(),
{
    if blocks.len() == 0 {
        Seq::empty()
    } else {
        match block_id(blocks.last()) {
            Some(id) => block_ids(blocks.drop_last()).push(id),
            None => block_ids(blocks.drop_last()),
        }
    }
}

pub open spec fn check_block_content(b: BlockV) -> Result<(), Seq<char>> {
    match b {
        BlockV::Text { text } => check_text_spec(text),
        BlockV::Markdown { text } => check_text_spec(text),
        BlockV::Button { label, .. } => check_text_spec(label),
        BlockV::Input { label, value, .. } => then(check_text_spec(label), check_text_spec(value)),
        BlockV::Select { label, options, .. } => then(
            check_text_spec(label),
            if options.len() == 0 || options.len() > 256 {
                Err("select requires 1..256 options"@)
            } else {
                check_options(options)
            },
        ),
    }
}

pub open spec fn check_block(b: BlockV, seen: Seq<Seq<char>>) -> Result<(), Seq<char>> {
    then(
        match block_id(b) {
            Some(id) => then(
                check_id_spec(id),
                if seen.contains(id) {
                    Err("duplicate UI control id"@)
                } else {
                    Ok(())
                },
            ),
            None => Ok(()),
        },
        check_block_content(b),
    )
}

pub open spec fn check_block_list(blocks: Seq<BlockV>) -> Result<(), Seq<char>>
    decreases blocks.len(),
{
    if blocks.len() == 0 {
        Ok(())
    } else {
        then(check_block_list(blocks.drop_last()), check_block(blocks.last(), block_ids(blocks.drop_last())))
    }
}

pub open spec fn check_blocks_spec(blocks: Seq<BlockV>) -> Result<(), Seq<char>> {
    if blocks.len() > 64 {
        Err("too many UI blocks"@)
    } else {
        check_block_list(blocks)
    }
}

pub open spec fn check_command(c: CommandV) -> Result<(), Seq<char>> {
    match c {
        CommandV::Notify { text, .. } => check_text_spec(text),
        CommandV::SetStatus { id, text } => then(check_id_spec(id), check_text_spec(text)),
        CommandV::RemoveStatus { id } => check_id_spec(id),
        CommandV::RemoveWidget { id } => check_id_spec(id),
        CommandV::CloseDialog { id } => check_id_spec(id),
        CommandV::SetWidget { id, blocks, .. } => then(check_id_spec(id), check_blocks_spec(blocks)),
        CommandV::OpenDialog { id, dialog } => then(
            check_id_spec(id),
            match dialog {
                DialogV::Confirm { title, text } => then(check_text_spec(title), check_text_spec(text)),
                DialogV::Form { title, blocks } => then(check_text_spec(title), check_blocks_spec(blocks)),
            },
        ),
    }
}

pub open spec fn check_command_list(cmds: Seq<CommandV>) -> Result<(), Seq<char>>
    decreases cmds.len(),
{
    if cmds.len() == 0 {
        Ok(())
    } else {
        then(check_command_list(cmds.drop_last()), check_command(cmds.last()))
    }
}

/// A batch is valid when it has at most 64 commands, its JSON encoding takes at
/// most 256 KiB, and every command passes its checks.
pub open spec fn validate_ui_spec(cmds: Seq<CommandV>, encoded_len: nat) -> Result<(), Seq<char>> {
    if cmds.len() > 64 || encoded_len > MAX_BATCH_BYTES {
        Err("UI batch exceeds limit"@)
    } else {
        check_command_list(cmds)
    }
}

pub open spec fn err_view(r: Result<(), String>) -> Result<(), Seq<char>> {
    match r {
        Ok(_) => Ok(()),
        Err(e) => Err(e@),
    }
}

fn fail(msg: &str) -> (r: Result<(), String>)
    ensures
        err_view(r) == Err::<(), Seq<char>>(msg@),
{
    Err(msg.to_owned())
}

pub fn check_text(text: &str) -> (r: Result<(), String>)
    ensures
        err_view(r) == check_text_spec(text@),
{
    let cs = chars_of(text);
    if exceeds_bytes(cs.as_slice(), MAX_TEXT) {
        fail("UI text exceeds 16 KiB")
    } else {
        Ok(())
    }
}

pub fn check_id(id: &str) -> (r: Result<(), String>)
    ensures
        err_view(r) == check_id_spec(id@),
{
    let cs = chars_of(id);
    if cs.len() == 0 || exceeds_bytes(cs.as_slice(), 128) {
        return fail("invalid UI id");
    }
    let mut i: usize = 0;
    while i < cs.len()
        invariant
            i <= cs@.len(),
            cs@ == id@,
            forall|k: int| 0 <= k < i ==> !is_ctrl(#[trigger] cs@[k]),
        decreases cs@.len() - i,
    {
        if is_control(cs[i]) {
            return fail("invalid UI id");
        }
        i = i + 1;
    }
    Ok(())
}

pub(crate) fn contains_str(seen: &Vec<&str>, s: &str) -> (r: bool)
    ensures
        r == seen@.map_values(|x: &str| x@).contains(s@),
{
    let ghost sv = seen@.map_values(|x: &str| x@);
    let mut i: usize = 0;
    while i < seen.len()
        invariant
            i <= seen@.len(),
            sv == seen@.map_values(|x: &str| x@),
            forall|k: int| 0 <= k < i ==> sv[k] != s@,
        decreases seen@.len() - i,
    {
        if crate::json::str_eq(seen[i], s) {
            proof {
                assert(sv[i as int] == s@);
            }
            return true;
        }
        i = i + 1;
    }
    false
}

fn check_options_exec(options: &Vec<SelectOption>) -> (r: Result<(), String>)
    ensures
        err_view(r) == check_options(options_view(options@)),
{
    let ghost ov = options_view(options@);
    let mut seen: Vec<&str> = Vec::new();
    let mut i: usize = 0;
    while i < options.len()
        invariant
            i <= options@.len(),
            ov == options_view(options@),
            check_options(ov.take(i as int)) is Ok,
            seen@.map_values(|x: &str| x@) == option_ids(ov.take(i as int)),
        decreases options@.len() - i,
    {
        let o = &options[i];
        proof {
            assert(ov.take(i as int + 1).drop_last() =~= ov.take(i as int));
            assert(ov.take(i as int + 1).last() == o@);
        }
        let r1 = check_id(o.id.as_str());
        if r1.is_err() {
            proof {
                lemma_options_err_persists(ov, i as int + 1);
            }
            return r1;
        }
        let r2 = check_text(o.label.as_str());
        if r2.is_err() {
            proof {
                lemma_options_err_persists(ov, i as int + 1);
            }
            return r2;
        }
        if contains_str(&seen, o.id.as_str()) {
            proof {
                lemma_options_err_persists(ov, i as int + 1);
            }
            return fail("duplicate option id");
        }
        let ghost prev = seen@;
        seen.push(o.id.as_str());
        proof {
            assert(seen@.map_values(|x: &str| x@) =~= prev.map_values(|x: &str| x@).push(o.id@));
            assert(option_ids(ov.take(i as int + 1)) =~= option_ids(ov.take(i as int)).push(o.id@));
        }
        i = i + 1;
    }
    proof {
        assert(ov.take(options@.len() as int) =~= ov);
    }
    Ok(())
}

proof fn lemma_options_err_persists(s: Seq<OptionV>, k: int)
    requires
        0 <= k <= s.len(),
        check_options(s.take(k)) is Err,
    ensures
        check_options(s) == check_options(s.take(k)),
    decreases s.len() - k,
{
    if k < s.len() {
        assert(s.take(k + 1).drop_last() =~= s.take(k));
        lemma_options_err_persists(s, k + 1);
    } else {
        assert(s.take(k) =~= s);
    }
}

fn check_block_content_exec(b: &UiBlock) -> (r: Result<(), String>)
    ensures
        err_view(r) == check_block_content(b@),
{
    match b {
        UiBlock::Text { text } => check_text(text.as_str()),
        UiBlock::Markdown { text } => check_text(text.as_str()),
        UiBlock::Button { label, .. } => check_text(label.as_str()),
        UiBlock::Input { label, value, .. } => {
            let r = check_text(label.as_str());
            if r.is_err() {
                return r;
            }
            check_text(value.as_str())
        },
        UiBlock::Select { label, options, .. } => {
            let r = check_text(label.as_str());
            if r.is_err() {
                return r;
            }
            if options.len() == 0 || options.len() > 256 {
                return fail("select requires 1..256 options");
            }
            check_options_exec(options)
        },
    }
}

proof fn lemma_blocks_err_persists(s: Seq<BlockV>, k: int)
    requires
        0 <= k <= s.len(),
        check_block_list(s.take(k)) is Err,
    ensures
        check_block_list(s) == check_block_list(s.take(k)),
    decreases s.len() - k,
{
    if k < s.len() {
        assert(s.take(k + 1).drop_last() =~= s.take(k));
        lemma_blocks_err_persists(s, k + 1);
    } else {
        assert(s.take(k) =~= s);
    }
}

pub fn check_blocks(blocks: &Vec<UiBlock>) -> (r: Result<(), String>)
    ensures
        err_view(r) == check_blocks_spec(blocks_view(blocks@)),
{
    if blocks.len() > 64 {
        return fail("too many UI blocks");
    }
    let ghost bv = blocks_view(blocks@);
    let mut seen: Vec<&str> = Vec::new();
    let mut i: usize = 0;
    while i < blocks.len()
        invariant
            i <= blocks@.len(),
            blocks@.len() <= 64,
            bv == blocks_view(blocks@),
            check_block_list(bv.take(i as int)) is Ok,
            seen@.map_values(|x: &str| x@) == block_ids(bv.take(i as int)),
        decreases blocks@.len() - i,
    {
        let b = &blocks[i];
        proof {
            assert(bv.take(i as int + 1).drop_last() =~= bv.take(i as int));
            assert(bv.take(i as int + 1).last() == b@);
        }
        match b.id() {
            Some(id) => {
                let r = check_id(id);
                if r.is_err() {
                    proof {
                        assert(check_block(b@, block_ids(bv.take(i as int))) == check_id_spec(id@));
                        assert(check_block_list(bv.take(i as int + 1)) == check_id_spec(id@));
                        lemma_blocks_err_persists(bv, i as int + 1);
                    }
                    return r;
                }
                if contains_str(&seen, id) {
                    proof {
                        lemma_blocks_err_persists(bv, i as int + 1);
                    }
                    return fail("duplicate UI control id");
                }
                seen.push(id);
            },
            None => {},
        }
        let r = check_block_content_exec(b);
        if r.is_err() {
            proof {
                lemma_blocks_err_persists(bv, i as int + 1);
            }
            return r;
        }
        proof {
            assert(seen@.map_values(|x: &str| x@) =~= block_ids(bv.take(i as int + 1)));
        }
        i = i + 1;
    }
    proof {
        assert(bv.take(blocks@.len() as int) =~= bv);
    }
    Ok(())
}

fn check_command_exec(c: &UiCommand) -> (r: Result<(), String>)
    ensures
        err_view(r) == check_command(c@),
{
    match c {
        UiCommand::Notify { text, .. } => check_text(text.as_str()),
        UiCommand::SetStatus { id, text } => {
            let r = check_id(id.as_str());
            if r.is_err() {
                return r;
            }
            check_text(text.as_str())
        },
        UiCommand::RemoveStatus { id } => check_id(id.as_str()),
        UiCommand::RemoveWidget { id } => check_id(id.as_str()),
        UiCommand::CloseDialog { id } => check_id(id.as_str()),
        UiCommand::SetWidget { id, blocks, .. } => {
            let r = check_id(id.as_str());
            if r.is_err() {
                return r;
            }
            check_blocks(blocks)
        },
        UiCommand::OpenDialog { id, dialog } => {
            let r = check_id(id.as_str());
            if r.is_err() {
                return r;
            }
            match dialog {
                Dialog::Confirm { title, text } => {
                    let r = check_text(title.as_str());
                    if r.is_err() {
                        return r;
                    }
                    check_text(text.as_str())
                },
                Dialog::Form { title, blocks } => {
                    let r = check_text(title.as_str());
                    if r.is_err() {
                        return r;
                    }
                    check_blocks(blocks)
                },
            }
        },
    }
}

proof fn lemma_commands_err_persists(s: Seq<CommandV>, k: int)
    requires
        0 <= k <= s.len(),
        check_command_list(s.take(k)) is Err,
    ensures
        check_command_list(s) == check_command_list(s.take(k)),
    decreases s.len() - k,
{
    if k < s.len() {
        assert(s.take(k + 1).drop_last() =~= s.take(k));
        lemma_commands_err_persists(s, k + 1);
    } else {
        assert(s.take(k) =~= s);
    }
}

/// Checks a batch before it is applied. `encoded_len` is the length in bytes of
/// the batch's JSON encoding.
pub fn validate_ui(commands: &Vec<UiCommand>, encoded_len: usize) -> (r: Result<(), String>)
    ensures
        err_view(r) == validate_ui_spec(commands_view(commands@), encoded_len as nat),
{
    if commands.len() > 64 || encoded_len > MAX_BATCH_BYTES {
        return fail("UI batch exceeds limit");
    }
    let ghost cv = commands_view(commands@);
    let mut i: usize = 0;
    while i < commands.len()
        invariant
            i <= commands@.len(),
            commands@.len() <= 64,
            encoded_len <= MAX_BATCH_BYTES,
            cv == commands_view(commands@),
            check_command_list(cv.take(i as int)) is Ok,
        decreases commands@.len() - i,
    {
        proof {
            assert(cv.take(i as int + 1).drop_last() =~= cv.take(i as int));
            assert(cv.take(i as int + 1).last() == commands@[i as int]@);
        }
        let r = check_command_exec(&commands[i]);
        if r.is_err() {
            proof {
                lemma_commands_err_persists(cv, i as int + 1);
            }
            return r;
        }
        i = i + 1;
    }
    proof {
        assert(cv.take(commands@.len() as int) =~= cv);
    }
    Ok(())
}

} // verus!
