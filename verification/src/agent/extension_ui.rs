//! Session-owned extension UI state: the surfaces and status items that
//! extensions publish, and the interactions a frontend may route back to them.
use vstd::prelude::*;
use crate::extension_api::ui::{
    SelectOption, options_view,
    BlockV, Dialog, DialogV, Level, Placement, SurfaceKind, UiBlock, UiCommand, UiEventType, UiInputEvent,
    CommandV, MAX_TEXT, block_id, blocks_view, clone_blocks, clone_dialog, commands_view, err_view,
    validate_ui, validate_ui_spec,
};
use crate::json::JsonValue;
use crate::text::{utf8_len, push_str, chars_of, exceeds_bytes};

verus! {

/// An interaction addressed to one extension.
#[derive(Debug)]
pub struct UiAction {
    pub extension: String,
    pub event: UiInputEvent,
}

#[derive(Debug)]
pub struct Surface {
    pub extension: String,
    pub id: String,
    pub kind: SurfaceKind,
    pub revision: u64,
    /// Changes only on replacement, so acknowledgement does not clear local drafts.
    pub content_revision: u64,
    pub pending: bool,
    pub placement: Placement,
    pub blocks: Vec<UiBlock>,
    pub dialog: Option<Dialog>,
}

#[derive(Debug)]
pub struct StatusItem {
    pub extension: String,
    pub id: String,
    pub text: String,
}

#[derive(Debug)]
pub struct Snapshot {
    pub surfaces: Vec<Surface>,
    pub statuses: Vec<StatusItem>,
}

pub struct SurfaceV {
    pub extension: Seq<char>,
    pub id: Seq<char>,
    pub kind: SurfaceKind,
    pub revision: u64,
    pub content_revision: u64,
    pub pending: bool,
    pub placement: Placement,
    pub blocks: Seq<BlockV>,
    pub dialog: Option<DialogV>,
}

pub struct StatusV {
    pub extension: Seq<char>,
    pub id: Seq<char>,
    pub text: Seq<char>,
}

pub struct SnapshotV {
    pub surfaces: Seq<SurfaceV>,
    pub statuses: Seq<StatusV>,
}

pub open spec fn dialog_view(d: Option<Dialog>) -> Option<DialogV> {
    match d {
        Some(x) => Some(x@),
        None => None,
    }
}

impl View for Surface {
    type V = SurfaceV;

    open spec fn view(&self) -> SurfaceV {
        SurfaceV {
            extension: self.extension@,
            id: self.id@,
            kind: self.kind,
            revision: self.revision,
            content_revision: self.content_revision,
            pending: self.pending,
            placement: self.placement,
            blocks: blocks_view(self.blocks@),
            dialog: dialog_view(self.dialog),
        }
    }
}

impl View for StatusItem {
    type V = StatusV;

    open spec fn view(&self) -> StatusV {
        StatusV { extension: self.extension@, id: self.id@, text: self.text@ }
    }
}

pub open spec fn surfaces_view(v: Seq<Surface>) -> Seq<SurfaceV> {
    v.map_values(|s: Surface| s@)
}

pub open spec fn statuses_view(v: Seq<StatusItem>) -> Seq<StatusV> {
    v.map_values(|s: StatusItem| s@)
}

impl View for Snapshot {
    type V = SnapshotV;

    open spec fn view(&self) -> SnapshotV {
        SnapshotV { surfaces: surfaces_view(self.surfaces@), statuses: statuses_view(self.statuses@) }
    }
}

// ---------------------------------------------------------------------------
// The model of a batch.

/// The revision after `n`. Revisions count up; the last one is kept once reached.
pub open spec fn bump(n: u64) -> u64 {
    if n < u64::MAX {
        (n + 1) as u64
    } else {
        n
    }
}

pub open spec fn level_name(level: Level) -> Seq<char> {
    match level {
        Level::Info => "Info"@,
        Level::Warning => "Warning"@,
        Level::Error => "Error"@,
    }
}

/// The note a notification becomes: `[owner · Level] text`.
pub open spec fn note_text(owner: Seq<char>, level: Level, text: Seq<char>) -> Seq<char> {
    "["@ + owner + " \u{b7} "@ + level_name(level) + "] "@ + text
}

pub open spec fn same_status(s: StatusV, owner: Seq<char>, id: Seq<char>) -> bool {
    s.extension == owner && s.id == id
}

pub open spec fn same_surface(s: SurfaceV, owner: Seq<char>, id: Seq<char>, kind: SurfaceKind) -> bool {
    s.extension == owner && s.id == id && s.kind == kind
}

/// The statuses other than `owner`'s item `id`, in order.
pub open spec fn drop_status(st: Seq<StatusV>, owner: Seq<char>, id: Seq<char>) -> Seq<StatusV>
    decreases st.len(),
{
    if st.len() == 0 {
        Seq::empty()
    } else if same_status(st.last(), owner, id) {
        drop_status(st.drop_last(), owner, id)
    } else {
        drop_status(st.drop_last(), owner, id).push(st.last())
    }
}

/// Index of `owner`'s first item `id`, or the length when there is none.
pub open spec fn status_pos(st: Seq<StatusV>, owner: Seq<char>, id: Seq<char>) -> int {
    if exists|i: int| 0 <= i < st.len() && same_status(#[trigger] st[i], owner, id) {
        choose|i: int|
            0 <= i < st.len() && same_status(#[trigger] st[i], owner, id) && forall|j: int|
                0 <= j < i ==> !same_status(#[trigger] st[j], owner, id)
    } else {
        st.len() as int
    }
}

pub open spec fn set_status(st: Seq<StatusV>, owner: Seq<char>, id: Seq<char>, text: Seq<char>) -> Seq<StatusV> {
    let p = status_pos(st, owner, id);
    if p < st.len() {
        st.update(p, StatusV { text: text, ..st[p] })
    } else {
        st.push(StatusV { extension: owner, id: id, text: text })
    }
}

/// The surfaces other than `owner`'s `kind` surface `id`, in order.
pub open spec fn drop_surface(sf: Seq<SurfaceV>, owner: Seq<char>, id: Seq<char>, kind: SurfaceKind) -> Seq<SurfaceV>
    decreases sf.len(),
{
    if sf.len() == 0 {
        Seq::empty()
    } else if same_surface(sf.last(), owner, id, kind) {
        drop_surface(sf.drop_last(), owner, id, kind)
    } else {
        drop_surface(sf.drop_last(), owner, id, kind).push(sf.last())
    }
}

pub open spec fn surface_pos(sf: Seq<SurfaceV>, owner: Seq<char>, id: Seq<char>, kind: SurfaceKind) -> int {
    if exists|i: int| 0 <= i < sf.len() && same_surface(#[trigger] sf[i], owner, id, kind) {
        choose|i: int|
            0 <= i < sf.len() && same_surface(#[trigger] sf[i], owner, id, kind) && forall|j: int|
                0 <= j < i ==> !same_surface(#[trigger] sf[j], owner, id, kind)
    } else {
        sf.len() as int
    }
}

/// A new surface replaces `owner`'s surface of the same id and kind in place, or
/// is appended.
pub open spec fn put_surface(sf: Seq<SurfaceV>, s: SurfaceV) -> Seq<SurfaceV> {
    let p = surface_pos(sf, s.extension, s.id, s.kind);
    if p < sf.len() {
        sf.update(p, s)
    } else {
        sf.push(s)
    }
}

pub open spec fn new_surface(
    owner: Seq<char>,
    id: Seq<char>,
    kind: SurfaceKind,
    revision: u64,
    placement: Placement,
    blocks: Seq<BlockV>,
    dialog: Option<DialogV>,
) -> SurfaceV {
    SurfaceV {
        extension: owner,
        id: id,
        kind: kind,
        revision: revision,
        content_revision: revision,
        pending: false,
        placement: placement,
        blocks: blocks,
        dialog: dialog,
    }
}

/// One command of `owner`'s batch: the new snapshot, the next revision, and the
/// note it produced.
pub open spec fn apply_command(s: SnapshotV, next: u64, owner: Seq<char>, c: CommandV) -> (SnapshotV, u64, Option<Seq<char>>) {
    match c {
        CommandV::Notify { level, text } => (s, next, Some(note_text(owner, level, text))),
        CommandV::RemoveStatus { id } => (SnapshotV { statuses: drop_status(s.statuses, owner, id), ..s }, next, None),
        CommandV::SetStatus { id, text } => (SnapshotV { statuses: set_status(s.statuses, owner, id, text), ..s }, next, None),
        CommandV::RemoveWidget { id } => (
            SnapshotV { surfaces: drop_surface(s.surfaces, owner, id, SurfaceKind::Widget), ..s },
            next,
            None,
        ),
        CommandV::CloseDialog { id } => (
            SnapshotV { surfaces: drop_surface(s.surfaces, owner, id, SurfaceKind::Dialog), ..s },
            next,
            None,
        ),
        CommandV::SetWidget { id, placement, blocks } => (
            SnapshotV {
                surfaces: put_surface(
                    s.surfaces,
                    new_surface(owner, id, SurfaceKind::Widget, next, placement, blocks, None),
                ),
                ..s
            },
            bump(next),
            None,
        ),
        CommandV::OpenDialog { id, dialog } => (
            SnapshotV {
                surfaces: put_surface(
                    s.surfaces,
                    new_surface(
                        owner,
                        id,
                        SurfaceKind::Dialog,
                        next,
                        Placement::AboveEditor,
                        match dialog {
                            DialogV::Form { blocks, .. } => blocks,
                            _ => Seq::empty(),
                        },
                        Some(dialog),
                    ),
                ),
                ..s
            },
            bump(next),
            None,
        ),
    }
}

pub open spec fn owner_statuses(st: Seq<StatusV>, owner: Seq<char>) -> nat
    decreases st.len(),
{
    if st.len() == 0 {
        0
    } else {
        owner_statuses(st.drop_last(), owner) + if st.last().extension == owner { 1nat } else { 0nat }
    }
}

pub open spec fn owner_surfaces(sf: Seq<SurfaceV>, owner: Seq<char>, kind: SurfaceKind) -> nat
    decreases sf.len(),
{
    if sf.len() == 0 {
        0
    } else {
        owner_surfaces(sf.drop_last(), owner, kind) + if sf.last().extension == owner && sf.last().kind
            == kind {
            1nat
        } else {
            0nat
        }
    }
}

/// An extension may hold at most 16 status items, 32 widgets and 8 dialogs.
pub open spec fn within_limits(s: SnapshotV, owner: Seq<char>) -> bool {
    owner_statuses(s.statuses, owner) <= 16 && owner_surfaces(s.surfaces, owner, SurfaceKind::Widget) <= 32
        && owner_surfaces(s.surfaces, owner, SurfaceKind::Dialog) <= 8
}

/// A whole batch, command by command; `None` as soon as a command leaves the
/// owner over a limit.
#[verifier::opaque]
pub open spec fn apply_batch(s: SnapshotV, next: u64, owner: Seq<char>, cmds: Seq<CommandV>) -> Option<
    (SnapshotV, u64, Seq<Seq<char>>),
>
    decreases cmds.len(),
{
    if cmds.len() == 0 {
        Some((s, next, Seq::empty()))
    } else {
        match apply_batch(s, next, owner, cmds.drop_last()) {
            None => None,
            Some((s1, n1, notes)) => {
                let (s2, n2, note) = apply_command(s1, n1, owner, cmds.last());
                if within_limits(s2, owner) {
                    Some(
                        (
                            s2,
                            n2,
                            match note {
                                Some(t) => notes.push(t),
                                None => notes,
                            },
                        ),
                    )
                } else {
                    None
                }
            },
        }
    }
}

pub open spec fn limit_error() -> Seq<char> {
    "extension UI resource limit exceeded"@
}

// ---------------------------------------------------------------------------
// Interactions.

pub open spec fn opt_seq_view(o: Option<String>) -> Option<Seq<char>> {
    match o {
        Some(s) => Some(s@),
        None => None,
    }
}

/// Whether a surface is the one an action addresses.
pub open spec fn addressed(s: SurfaceV, a: UiAction) -> bool {
    s.extension == a.extension@ && Some(s.kind) == a.event.surface && Some(s.id) == opt_seq_view(
        a.event.surface_id,
    )
}

pub open spec fn addressed_pos(sf: Seq<SurfaceV>, a: UiAction) -> int {
    if exists|i: int| 0 <= i < sf.len() && addressed(#[trigger] sf[i], a) {
        choose|i: int|
            0 <= i < sf.len() && addressed(#[trigger] sf[i], a) && forall|j: int|
                0 <= j < i ==> !addressed(#[trigger] sf[j], a)
    } else {
        sf.len() as int
    }
}

pub open spec fn str_value(v: JsonValue) -> Option<Seq<char>> {
    match v {
        JsonValue::Str(s) => Some(s@),
        _ => None,
    }
}

/// Whether a block of the addressed surface takes the event: the control id
/// names the block and the event kind and value fit it.
pub open spec fn block_takes(b: BlockV, e: UiInputEvent) -> bool {
    block_id(b) == opt_seq_view(e.control_id) && match b {
        BlockV::Button { .. } => e.kind == UiEventType::Click && e.value is Null,
        BlockV::Select { options, .. } => e.kind == UiEventType::Select && exists|j: int|
            0 <= j < options.len() && str_value(e.value) == Some(#[trigger] options[j].id),
        BlockV::Input { .. } => e.kind == UiEventType::Submit && match str_value(e.value) {
            Some(v) => utf8_len(v) <= MAX_TEXT && !v.contains('\n') && !v.contains('\r'),
            None => false,
        },
        _ => false,
    }
}

/// Whether the event fits the surface: a cancel closes a dialog, a confirmation
/// dialog takes a boolean, and otherwise one of the blocks must take it.
pub open spec fn event_fits(s: SurfaceV, e: UiInputEvent) -> bool {
    if e.kind == UiEventType::Cancel {
        s.kind == SurfaceKind::Dialog && e.control_id is None && e.value is Null
    } else if s.dialog matches Some(DialogV::Confirm { .. }) {
        e.kind == UiEventType::Confirm && e.value is Bool && e.control_id is None
    } else {
        exists|k: int| 0 <= k < s.blocks.len() && block_takes(#[trigger] s.blocks[k], e)
    }
}

/// Every addressed surface acknowledged: not pending, each with a fresh revision
/// in order.
pub open spec fn refresh_addressed(sf: Seq<SurfaceV>, a: UiAction, next: u64) -> (Seq<SurfaceV>, u64)
    decreases sf.len(),
{
    if sf.len() == 0 {
        (Seq::empty(), next)
    } else {
        let (front, n) = refresh_addressed(sf.drop_last(), a, next);
        if addressed(sf.last(), a) {
            (front.push(SurfaceV { pending: false, revision: n, ..sf.last() }), bump(n))
        } else {
            (front.push(sf.last()), n)
        }
    }
}

pub open spec fn drop_addressed(sf: Seq<SurfaceV>, a: UiAction) -> Seq<SurfaceV>
    decreases sf.len(),
{
    if sf.len() == 0 {
        Seq::empty()
    } else if addressed(sf.last(), a) {
        drop_addressed(sf.drop_last(), a)
    } else {
        drop_addressed(sf.drop_last(), a).push(sf.last())
    }
}

/// The widgets, each acknowledged with a fresh revision in order; dialogs close.
pub open spec fn reset_widgets(sf: Seq<SurfaceV>, next: u64) -> (Seq<SurfaceV>, u64)
    decreases sf.len(),
{
    if sf.len() == 0 {
        (Seq::empty(), next)
    } else {
        let (front, n) = reset_widgets(sf.drop_last(), next);
        if sf.last().kind == SurfaceKind::Widget {
            (front.push(SurfaceV { pending: false, revision: n, ..sf.last() }), bump(n))
        } else {
            (front, n)
        }
    }
}

pub struct StateV {
    pub snapshot: SnapshotV,
    pub next_revision: u64,
}

/// The UI state of one session, with the counter its revisions come from.
#[derive(Debug)]
pub struct State {
    pub snapshot: Snapshot,
    next_revision: u64,
}

impl View for State {
    type V = StateV;

    closed spec fn view(&self) -> StateV {
        StateV { snapshot: self.snapshot@, next_revision: self.next_revision }
    }
}

/// Nanoseconds since the Unix epoch, from the system clock.
#[verifier::external_body]
fn clock_nanos() -> (r: u64) {
    std::time::SystemTime::now().duration_since(std::time::UNIX_EPOCH).map_or(0, |d| d.as_nanos() as u64)
}

// Exec helpers.

fn clone_surface(s: &Surface) -> (r: Surface)
    ensures
        r@ == s@,
{
    let dialog = match &s.dialog {
        Some(d) => Some(clone_dialog(d)),
        None => None,
    };
    Surface {
        extension: s.extension.clone(),
        id: s.id.clone(),
        kind: s.kind,
        revision: s.revision,
        content_revision: s.content_revision,
        pending: s.pending,
        placement: s.placement,
        blocks: clone_blocks(&s.blocks),
        dialog: dialog,
    }
}

fn clone_status(s: &StatusItem) -> (r: StatusItem)
    ensures
        r@ == s@,
{
    StatusItem { extension: s.extension.clone(), id: s.id.clone(), text: s.text.clone() }
}

fn clone_snapshot(s: &Snapshot) -> (r: Snapshot)
    ensures
        r@ == s@,
{
    let mut surfaces: Vec<Surface> = Vec::new();
    let mut i: usize = 0;
    while i < s.surfaces.len()
        invariant
            i <= s.surfaces@.len(),
            surfaces_view(surfaces@) == surfaces_view(s.surfaces@.take(i as int)),
        decreases s.surfaces@.len() - i,
    {
        let c = clone_surface(&s.surfaces[i]);
        let ghost prev = surfaces@;
        surfaces.push(c);
        proof {
            assert(surfaces_view(surfaces@) =~= surfaces_view(prev).push(c@));
            assert(surfaces_view(s.surfaces@.take(i as int + 1)) =~= surfaces_view(s.surfaces@.take(i as int)).push(
                s.surfaces@[i as int]@,
            ));
        }
        i = i + 1;
    }
    let mut statuses: Vec<StatusItem> = Vec::new();
    let mut j: usize = 0;
    while j < s.statuses.len()
        invariant
            j <= s.statuses@.len(),
            statuses_view(statuses@) == statuses_view(s.statuses@.take(j as int)),
        decreases s.statuses@.len() - j,
    {
        let c = clone_status(&s.statuses[j]);
        let ghost prev = statuses@;
        statuses.push(c);
        proof {
            assert(statuses_view(statuses@) =~= statuses_view(prev).push(c@));
            assert(statuses_view(s.statuses@.take(j as int + 1)) =~= statuses_view(s.statuses@.take(j as int)).push(
                s.statuses@[j as int]@,
            ));
        }
        j = j + 1;
    }
    proof {
        assert(s.surfaces@.take(s.surfaces@.len() as int) =~= s.surfaces@);
        assert(s.statuses@.take(s.statuses@.len() as int) =~= s.statuses@);
    }
    Snapshot { surfaces, statuses }
}

fn same_text(a: &String, b: &str) -> (r: bool)
    ensures
        r == (a@ == b@),
{
    crate::json::str_eq(a.as_str(), b)
}

fn next_of(n: u64) -> (r: u64)
    ensures
        r == bump(n),
{
    if n < u64::MAX {
        n + 1
    } else {
        n
    }
}

proof fn lemma_take_last<T>(s: Seq<T>, i: int)
    requires
        0 <= i < s.len(),
    ensures
        s.take(i + 1).drop_last() =~= s.take(i),
        s.take(i + 1).last() == s[i],
{
}

fn drop_status_exec(st: &Vec<StatusItem>, owner: &str, id: &str) -> (r: Vec<StatusItem>)
    ensures
        statuses_view(r@) == drop_status(statuses_view(st@), owner@, id@),
{
    let ghost sv = statuses_view(st@);
    let mut out: Vec<StatusItem> = Vec::new();
    let mut i: usize = 0;
    while i < st.len()
        invariant
            i <= st@.len(),
            sv == statuses_view(st@),
            statuses_view(out@) == drop_status(sv.take(i as int), owner@, id@),
        decreases st@.len() - i,
    {
        proof {
            lemma_take_last(sv, i as int);
        }
        let item = &st[i];
        if !(same_text(&item.extension, owner) && same_text(&item.id, id)) {
            let c = clone_status(item);
            let ghost prev = out@;
            out.push(c);
            proof {
                assert(statuses_view(out@) =~= statuses_view(prev).push(c@));
            }
        }
        i = i + 1;
    }
    proof {
        assert(sv.take(st@.len() as int) =~= sv);
    }
    out
}

fn find_status(st: &Vec<StatusItem>, owner: &str, id: &str) -> (r: usize)
    ensures
        r == status_pos(statuses_view(st@), owner@, id@),
{
    let ghost sv = statuses_view(st@);
    let mut i: usize = 0;
    while i < st.len()
        invariant
            i <= st@.len(),
            sv == statuses_view(st@),
            forall|j: int| 0 <= j < i ==> !same_status(#[trigger] sv[j], owner@, id@),
        decreases st@.len() - i,
    {
        if same_text(&st[i].extension, owner) && same_text(&st[i].id, id) {
            proof {
                assert(same_status(sv[i as int], owner@, id@));
                let c = status_pos(sv, owner@, id@);
                if c != i {
                    assert(same_status(sv[c], owner@, id@));
                }
            }
            return i;
        }
        i = i + 1;
    }
    i
}

fn set_status_exec(st: &mut Vec<StatusItem>, owner: &str, id: String, text: String)
    ensures
        statuses_view(final(st)@) == set_status(statuses_view(old(st)@), owner@, id@, text@),
{
    let p = find_status(st, owner, id.as_str());
    if p < st.len() {
        let item = StatusItem { extension: st[p].extension.clone(), id: st[p].id.clone(), text: text };
        let ghost prev = st@;
        st.set(p, item);
        proof {
            assert(statuses_view(st@) =~= statuses_view(prev).update(p as int, item@));
        }
    } else {
        let item = StatusItem { extension: owner.to_owned(), id: id, text: text };
        let ghost prev = st@;
        st.push(item);
        proof {
            assert(statuses_view(st@) =~= statuses_view(prev).push(item@));
        }
    }
}

fn kind_eq(a: SurfaceKind, b: SurfaceKind) -> (r: bool)
    ensures
        r == (a == b),
{
    match (a, b) {
        (SurfaceKind::Widget, SurfaceKind::Widget) => true,
        (SurfaceKind::Dialog, SurfaceKind::Dialog) => true,
        _ => false,
    }
}

fn drop_surface_exec(sf: &Vec<Surface>, owner: &str, id: &str, kind: SurfaceKind) -> (r: Vec<Surface>)
    ensures
        surfaces_view(r@) == drop_surface(surfaces_view(sf@), owner@, id@, kind),
{
    let ghost sv = surfaces_view(sf@);
    let mut out: Vec<Surface> = Vec::new();
    let mut i: usize = 0;
    while i < sf.len()
        invariant
            i <= sf@.len(),
            sv == surfaces_view(sf@),
            surfaces_view(out@) == drop_surface(sv.take(i as int), owner@, id@, kind),
        decreases sf@.len() - i,
    {
        proof {
            lemma_take_last(sv, i as int);
        }
        let item = &sf[i];
        if !(same_text(&item.extension, owner) && same_text(&item.id, id) && kind_eq(item.kind, kind)) {
            let c = clone_surface(item);
            let ghost prev = out@;
            out.push(c);
            proof {
                assert(surfaces_view(out@) =~= surfaces_view(prev).push(c@));
            }
        }
        i = i + 1;
    }
    proof {
        assert(sv.take(sf@.len() as int) =~= sv);
    }
    out
}

fn find_surface(sf: &Vec<Surface>, owner: &str, id: &str, kind: SurfaceKind) -> (r: usize)
    ensures
        r == surface_pos(surfaces_view(sf@), owner@, id@, kind),
{
    let ghost sv = surfaces_view(sf@);
    let mut i: usize = 0;
    while i < sf.len()
        invariant
            i <= sf@.len(),
            sv == surfaces_view(sf@),
            forall|j: int| 0 <= j < i ==> !same_surface(#[trigger] sv[j], owner@, id@, kind),
        decreases sf@.len() - i,
    {
        if same_text(&sf[i].extension, owner) && same_text(&sf[i].id, id) && kind_eq(sf[i].kind, kind) {
            proof {
                assert(same_surface(sv[i as int], owner@, id@, kind));
                let c = surface_pos(sv, owner@, id@, kind);
                if c != i {
                    assert(same_surface(sv[c], owner@, id@, kind));
                }
            }
            return i;
        }
        i = i + 1;
    }
    i
}

fn put_surface_exec(sf: &mut Vec<Surface>, s: Surface)
    ensures
        surfaces_view(final(sf)@) == put_surface(surfaces_view(old(sf)@), s@),
{
    let p = find_surface(sf, s.extension.as_str(), s.id.as_str(), s.kind);
    let ghost prev = sf@;
    let ghost v = s@;
    if p < sf.len() {
        sf.set(p, s);
        proof {
            assert(surfaces_view(sf@) =~= surfaces_view(prev).update(p as int, v));
        }
    } else {
        sf.push(s);
        proof {
            assert(surfaces_view(sf@) =~= surfaces_view(prev).push(v));
        }
    }
}

fn count_statuses(st: &Vec<StatusItem>, owner: &str) -> (r: usize)
    ensures
        r == owner_statuses(statuses_view(st@), owner@),
{
    let ghost sv = statuses_view(st@);
    let mut n: usize = 0;
    let mut i: usize = 0;
    while i < st.len()
        invariant
            i <= st@.len(),
            n <= i,
            sv == statuses_view(st@),
            n == owner_statuses(sv.take(i as int), owner@),
        decreases st@.len() - i,
    {
        proof {
            lemma_take_last(sv, i as int);
        }
        if same_text(&st[i].extension, owner) {
            n = n + 1;
        }
        i = i + 1;
    }
    proof {
        assert(sv.take(st@.len() as int) =~= sv);
    }
    n
}

fn count_surfaces(sf: &Vec<Surface>, owner: &str, kind: SurfaceKind) -> (r: usize)
    ensures
        r == owner_surfaces(surfaces_view(sf@), owner@, kind),
{
    let ghost sv = surfaces_view(sf@);
    let mut n: usize = 0;
    let mut i: usize = 0;
    while i < sf.len()
        invariant
            i <= sf@.len(),
            n <= i,
            sv == surfaces_view(sf@),
            n == owner_surfaces(sv.take(i as int), owner@, kind),
        decreases sf@.len() - i,
    {
        proof {
            lemma_take_last(sv, i as int);
        }
        if same_text(&sf[i].extension, owner) && kind_eq(sf[i].kind, kind) {
            n = n + 1;
        }
        i = i + 1;
    }
    proof {
        assert(sv.take(sf@.len() as int) =~= sv);
    }
    n
}

fn level_text(level: Level) -> (r: &'static str)
    ensures
        r@ == level_name(level),
{
    match level {
        Level::Info => "Info",
        Level::Warning => "Warning",
        Level::Error => "Error",
    }
}

fn notify_note(owner: &str, level: Level, text: &str) -> (m: String)
    ensures
        m@ == note_text(owner@, level, text@),
{
    let mut m = "[".to_owned();
    push_str(&mut m, owner);
    push_str(&mut m, " \u{b7} ");
    push_str(&mut m, level_text(level));
    push_str(&mut m, "] ");
    push_str(&mut m, text);
    m
}

fn new_surface_exec(owner: &str, id: String, kind: SurfaceKind, revision: u64, placement: Placement, blocks: Vec<UiBlock>, dialog: Option<Dialog>) -> (r: Surface)
    ensures
        r@ == new_surface(owner@, id@, kind, revision, placement, blocks_view(blocks@), dialog_view(dialog)),
{
    Surface {
        extension: owner.to_owned(),
        id: id,
        kind: kind,
        revision: revision,
        content_revision: revision,
        pending: false,
        placement: placement,
        blocks: blocks,
        dialog: dialog,
    }
}

fn dialog_blocks(dialog: &Dialog) -> (r: Vec<UiBlock>)
    ensures
        blocks_view(r@) == match dialog@ {
            DialogV::Form { blocks, .. } => blocks,
            _ => Seq::empty(),
        },
{
    match dialog {
        Dialog::Form { blocks, .. } => clone_blocks(blocks),
        _ => {
            let v: Vec<UiBlock> = Vec::new();
            proof {
                assert(blocks_view(v@) =~= Seq::<BlockV>::empty());
            }
            v
        },
    }
}

/// One command applied to a working snapshot.
#[verifier::rlimit(40)]
fn apply_one(snapshot: &mut Snapshot, next: &mut u64, owner: &str, c: UiCommand) -> (note: Option<String>)
    ensures
        ({
            let (s, n, t) = apply_command(old(snapshot)@, *old(next), owner@, c@);
            &&& final(snapshot)@ == s
            &&& *final(next) == n
            &&& opt_seq_view(note) == t
        }),
{
    match c {
        UiCommand::Notify { level, text } => Some(notify_note(owner, level, text.as_str())),
        UiCommand::RemoveStatus { id } => {
            snapshot.statuses = drop_status_exec(&snapshot.statuses, owner, id.as_str());
            None
        },
        UiCommand::SetStatus { id, text } => {
            set_status_exec(&mut snapshot.statuses, owner, id, text);
            None
        },
        UiCommand::RemoveWidget { id } => {
            snapshot.surfaces = drop_surface_exec(&snapshot.surfaces, owner, id.as_str(), SurfaceKind::Widget);
            None
        },
        UiCommand::CloseDialog { id } => {
            snapshot.surfaces = drop_surface_exec(&snapshot.surfaces, owner, id.as_str(), SurfaceKind::Dialog);
            None
        },
        UiCommand::SetWidget { id, placement, blocks } => {
            let revision = *next;
            let s = new_surface_exec(owner, id, SurfaceKind::Widget, revision, placement, blocks, None);
            put_surface_exec(&mut snapshot.surfaces, s);
            *next = next_of(revision);
            None
        },
        UiCommand::OpenDialog { id, dialog } => {
            let revision = *next;
            let blocks = dialog_blocks(&dialog);
            let s = new_surface_exec(owner, id, SurfaceKind::Dialog, revision, Placement::AboveEditor, blocks, Some(dialog));
            put_surface_exec(&mut snapshot.surfaces, s);
            *next = next_of(revision);
            None
        },
    }
}

pub open spec fn notes_view(v: Seq<String>) -> Seq<Seq<char>> {
    v.map_values(|s: String| s@)
}

pub open spec fn unchanged(a: StateV, b: StateV) -> bool {
    a == b
}

fn find_addressed(sf: &Vec<Surface>, action: &UiAction) -> (r: usize)
    ensures
        r == addressed_pos(surfaces_view(sf@), *action),
{
    let ghost sv = surfaces_view(sf@);
    let mut i: usize = 0;
    while i < sf.len()
        invariant
            i <= sf@.len(),
            sv == surfaces_view(sf@),
            forall|j: int| 0 <= j < i ==> !addressed(#[trigger] sv[j], *action),
        decreases sf@.len() - i,
    {
        let s = &sf[i];
        let kind_ok = match action.event.surface {
            Some(k) => kind_eq(s.kind, k),
            None => false,
        };
        let id_ok = match &action.event.surface_id {
            Some(id) => same_text(&s.id, id.as_str()),
            None => false,
        };
        if same_text(&s.extension, action.extension.as_str()) && kind_ok && id_ok {
            proof {
                assert(addressed(sv[i as int], *action));
                let c = addressed_pos(sv, *action);
                if c != i {
                    assert(addressed(sv[c], *action));
                }
            }
            return i;
        }
        proof {
            assert(!addressed(sv[i as int], *action));
        }
        i = i + 1;
    }
    i
}

fn has_char(cs: &Vec<char>, c: char) -> (r: bool)
    ensures
        r == cs@.contains(c),
{
    let mut i: usize = 0;
    while i < cs.len()
        invariant
            i <= cs@.len(),
            forall|j: int| 0 <= j < i ==> cs@[j] != c,
        decreases cs@.len() - i,
    {
        if cs[i] == c {
            proof {
                assert(cs@[i as int] == c);
            }
            return true;
        }
        i = i + 1;
    }
    false
}

fn event_is(a: UiEventType, b: UiEventType) -> (r: bool)
    ensures
        r == (a == b),
{
    match (a, b) {
        (UiEventType::Mount, UiEventType::Mount) => true,
        (UiEventType::Click, UiEventType::Click) => true,
        (UiEventType::Select, UiEventType::Select) => true,
        (UiEventType::Submit, UiEventType::Submit) => true,
        (UiEventType::Confirm, UiEventType::Confirm) => true,
        (UiEventType::Cancel, UiEventType::Cancel) => true,
        _ => false,
    }
}

fn block_takes_exec(b: &UiBlock, e: &UiInputEvent) -> (r: bool)
    ensures
        r == block_takes(b@, *e),
{
    let ids_match = match (b.id(), &e.control_id) {
        (Some(a), Some(c)) => crate::json::str_eq(a, c.as_str()),
        (None, None) => true,
        _ => false,
    };
    if !ids_match {
        return false;
    }
    match b {
        UiBlock::Button { .. } => event_is(e.kind, UiEventType::Click) && e.value.is_null(),
        UiBlock::Select { options, .. } => {
            if !event_is(e.kind, UiEventType::Select) {
                return false;
            }
            match &e.value {
                JsonValue::Str(v) => option_listed(options, v.as_str()),
                _ => false,
            }
        },
        UiBlock::Input { .. } => {
            if !event_is(e.kind, UiEventType::Submit) {
                return false;
            }
            match &e.value {
                JsonValue::Str(v) => {
                    let cs = chars_of(v.as_str());
                    !exceeds_bytes(cs.as_slice(), MAX_TEXT) && !has_char(&cs, '\n') && !has_char(&cs, '\r')
                },
                _ => false,
            }
        },
        _ => false,
    }
}

fn option_listed(options: &Vec<SelectOption>, v: &str) -> (r: bool)
    ensures
        r == exists|j: int| 0 <= j < options@.len() && v@ == #[trigger] options_view(options@)[j].id,
{
    let ghost ov = options_view(options@);
    let mut j: usize = 0;
    while j < options.len()
        invariant
            j <= options@.len(),
            ov == options_view(options@),
            forall|k: int| 0 <= k < j ==> ov[k].id != v@,
        decreases options@.len() - j,
    {
        if crate::json::str_eq(options[j].id.as_str(), v) {
            proof {
                assert(v@ == ov[j as int].id);
            }
            return true;
        }
        j = j + 1;
    }
    false
}

fn some_block_takes(blocks: &Vec<UiBlock>, e: &UiInputEvent) -> (r: bool)
    ensures
        r == exists|k: int| 0 <= k < blocks@.len() && block_takes(#[trigger] blocks_view(blocks@)[k], *e),
{
    let ghost bv = blocks_view(blocks@);
    let mut k: usize = 0;
    while k < blocks.len()
        invariant
            k <= blocks@.len(),
            bv == blocks_view(blocks@),
            forall|j: int| 0 <= j < k ==> !block_takes(#[trigger] bv[j], *e),
        decreases blocks@.len() - k,
    {
        if block_takes_exec(&blocks[k], e) {
            proof {
                assert(block_takes(bv[k as int], *e));
            }
            return true;
        }
        k = k + 1;
    }
    false
}

fn event_fits_exec(s: &Surface, e: &UiInputEvent) -> (r: bool)
    ensures
        r == event_fits(s@, *e),
{
    if event_is(e.kind, UiEventType::Cancel) {
        return kind_eq(s.kind, SurfaceKind::Dialog) && e.control_id.is_none() && e.value.is_null();
    }
    match &s.dialog {
        Some(Dialog::Confirm { .. }) => {
            return event_is(e.kind, UiEventType::Confirm) && matches!(e.value, JsonValue::Bool(_))
                && e.control_id.is_none();
        },
        _ => {},
    }
    let r = some_block_takes(&s.blocks, e);
    proof {
        if r {
            let k = choose|k: int| 0 <= k < s.blocks@.len() && block_takes(#[trigger] blocks_view(s.blocks@)[k], *e);
            assert(block_takes(s@.blocks[k], *e));
        }
    }
    r
}

fn is_addressed(s: &Surface, action: &UiAction) -> (r: bool)
    ensures
        r == addressed(s@, *action),
{
    let kind_ok = match action.event.surface {
        Some(k) => kind_eq(s.kind, k),
        None => false,
    };
    let id_ok = match &action.event.surface_id {
        Some(id) => same_text(&s.id, id.as_str()),
        None => false,
    };
    same_text(&s.extension, action.extension.as_str()) && kind_ok && id_ok
}

fn drop_addressed_exec(sf: &Vec<Surface>, action: &UiAction) -> (r: Vec<Surface>)
    ensures
        surfaces_view(r@) == drop_addressed(surfaces_view(sf@), *action),
{
    let ghost sv = surfaces_view(sf@);
    let mut out: Vec<Surface> = Vec::new();
    let mut i: usize = 0;
    while i < sf.len()
        invariant
            i <= sf@.len(),
            sv == surfaces_view(sf@),
            surfaces_view(out@) == drop_addressed(sv.take(i as int), *action),
        decreases sf@.len() - i,
    {
        proof {
            lemma_take_last(sv, i as int);
        }
        if !is_addressed(&sf[i], action) {
            let t = clone_surface(&sf[i]);
            let ghost prev = out@;
            let ghost tv = t@;
            out.push(t);
            proof {
                assert(surfaces_view(out@) =~= surfaces_view(prev).push(tv));
            }
        }
        i = i + 1;
    }
    proof {
        assert(sv.take(sv.len() as int) =~= sv);
    }
    out
}

fn refresh_addressed_exec(sf: &Vec<Surface>, action: &UiAction, next0: u64) -> (r: (Vec<Surface>, u64))
    ensures
        (surfaces_view(r.0@), r.1) == refresh_addressed(surfaces_view(sf@), *action, next0),
{
    let ghost sv = surfaces_view(sf@);
    let mut out: Vec<Surface> = Vec::new();
    let mut next = next0;
    let mut i: usize = 0;
    while i < sf.len()
        invariant
            i <= sf@.len(),
            sv == surfaces_view(sf@),
            (surfaces_view(out@), next) == refresh_addressed(sv.take(i as int), *action, next0),
        decreases sf@.len() - i,
    {
        proof {
            lemma_take_last(sv, i as int);
        }
        let mut t = clone_surface(&sf[i]);
        if is_addressed(&sf[i], action) {
            t.pending = false;
            t.revision = next;
            next = next_of(next);
        }
        let ghost prev = out@;
        let ghost tv = t@;
        out.push(t);
        proof {
            assert(surfaces_view(out@) =~= surfaces_view(prev).push(tv));
        }
        i = i + 1;
    }
    proof {
        assert(sv.take(sv.len() as int) =~= sv);
    }
    (out, next)
}

/// One step of a batch: the command applied to the working snapshot, its note
/// kept, and whether the owner is now over a limit.
fn batch_step(snapshot: &mut Snapshot, next: &mut u64, notes: &mut Vec<String>, owner: &str, c: UiCommand) -> (over: bool)
    ensures
        ({
            let (s, n, t) = apply_command(old(snapshot)@, *old(next), owner@, c@);
            &&& final(snapshot)@ == s
            &&& *final(next) == n
            &&& notes_view(final(notes)@) == match t {
                Some(x) => notes_view(old(notes)@).push(x),
                None => notes_view(old(notes)@),
            }
            &&& over == !within_limits(s, owner@)
        }),
{
    let ghost before = notes@;
    let note = apply_one(snapshot, next, owner, c);
    match note {
        Some(t) => {
            notes.push(t);
            proof {
                assert(notes_view(notes@) =~= notes_view(before).push(t@));
            }
        },
        None => {},
    }
    count_statuses(&snapshot.statuses, owner) > 16 || count_surfaces(&snapshot.surfaces, owner, SurfaceKind::Widget) > 32
        || count_surfaces(&snapshot.surfaces, owner, SurfaceKind::Dialog) > 8
}

impl State {
    /// An empty state. Its revisions start at the current time in nanoseconds, so
    /// that sessions of one process do not reuse each other's revisions.
    pub fn new() -> (r: Self)
        ensures
            r@.snapshot.surfaces.len() == 0,
            r@.snapshot.statuses.len() == 0,
    {
        let snapshot = Snapshot { surfaces: Vec::new(), statuses: Vec::new() };
        State { snapshot, next_revision: clock_nanos() }
    }

    /// An empty state whose revisions start at `first`, taken from a counter that
    /// the caller keeps for all sessions of the process, so that no two states
    /// hand out the same revision.
    pub fn starting_at(first: u64) -> (r: Self)
        ensures
            r@.snapshot.surfaces.len() == 0,
            r@.snapshot.statuses.len() == 0,
            r@.next_revision == first,
    {
        let snapshot = Snapshot { surfaces: Vec::new(), statuses: Vec::new() };
        State { snapshot, next_revision: first }
    }

    /// The revision that the next surface will get.
    pub fn next_revision(&self) -> (r: u64)
        ensures
            r == self@.next_revision,
    {
        self.next_revision
    }

    /// The current snapshot.
    pub fn snapshot(&self) -> (r: &Snapshot)
        ensures
            r@ == self@.snapshot,
    {
        &self.snapshot
    }

    /// Applies `owner`'s batch as a whole or not at all. `encoded_len` is the
    /// length in bytes of the batch's JSON encoding.
    #[verifier::rlimit(80)]
    pub fn apply(&mut self, owner: &str, commands: Vec<UiCommand>, encoded_len: usize) -> (r: Result<Vec<String>, String>)
        ensures
            match validate_ui_spec(commands_view(commands@), encoded_len as nat) {
                Err(e) => r matches Err(m) && m@ == e && final(self)@ == old(self)@,
                Ok(_) => match apply_batch(old(self)@.snapshot, old(self)@.next_revision, owner@, commands_view(commands@)) {
                    None => r matches Err(m) && m@ == limit_error() && final(self)@ == old(self)@,
                    Some((s, n, notes)) => r matches Ok(v) && notes_view(v@) == notes
                        && final(self)@ == (StateV { snapshot: s, next_revision: n }),
                },
            },
    {
        let checked = validate_ui(&commands, encoded_len);
        match checked {
            Err(e) => {
                return Err(e);
            },
            Ok(_) => {},
        }
        let ghost cv = commands_view(commands@);
        let ghost s0 = self@.snapshot;
        let ghost n0 = self.next_revision;
        let mut snapshot = clone_snapshot(&self.snapshot);
        let mut next = self.next_revision;
        let mut notes: Vec<String> = Vec::new();
        let mut rest = commands;
        let total = rest.len();
        let mut i: usize = 0;
        proof {
            assert(cv.take(0) =~= Seq::<CommandV>::empty());
            lemma_batch_empty(s0, n0, owner@);
            assert(notes_view(notes@) =~= Seq::<Seq<char>>::empty());
            assert(rest@ =~= commands@.skip(0));
        }
        while i < total
            invariant
                i <= total == commands@.len(),
                cv == commands_view(commands@),
                validate_ui_spec(cv, encoded_len as nat) is Ok,
                rest@ == commands@.skip(i as int),
                s0 == old(self)@.snapshot,
                n0 == old(self)@.next_revision,
                self@ == old(self)@,
                apply_batch(s0, n0, owner@, cv.take(i as int)) == Some((snapshot@, next, notes_view(notes@))),
            decreases total - i,
        {
            proof {
                assert(rest@[0] == commands@[i as int]);
                assert(cv[i as int] == commands@[i as int]@);
                lemma_batch_next(s0, n0, owner@, cv, i as int);
            }
            let c = rest.remove(0);
            proof {
                assert(rest@ =~= commands@.skip(i as int + 1));
            }
            let ghost sb = snapshot@;
            let ghost nb = next;
            let ghost tb = notes_view(notes@);
            let over = batch_step(&mut snapshot, &mut next, &mut notes, owner, c);
            if over {
                proof {
                    lemma_batch_none_persists(s0, n0, owner@, cv, i as int + 1);
                }
                return Err("extension UI resource limit exceeded".to_owned());
            }
            i = i + 1;
        }
        proof {
            assert(cv.take(total as int) =~= cv);
        }
        self.snapshot = snapshot;
        self.next_revision = next;
        Ok(notes)
    }

    /// The surface an action addresses, if it still exists.
    pub fn surface(&self, action: &UiAction) -> (r: Option<&Surface>)
        ensures
            ({
                let sf = self@.snapshot.surfaces;
                let p = addressed_pos(sf, *action);
                match r {
                    Some(s) => p < sf.len() && s@ == sf[p],
                    None => p >= sf.len(),
                }
            }),
    {
        let p = find_addressed(&self.snapshot.surfaces, action);
        if p < self.snapshot.surfaces.len() {
            Some(&self.snapshot.surfaces[p])
        } else {
            None
        }
    }

    /// Whether the action addresses a surface at the revision it still has.
    pub fn current(&self, action: &UiAction) -> (r: bool)
        ensures
            ({
                let sf = self@.snapshot.surfaces;
                let p = addressed_pos(sf, *action);
                r == (p < sf.len() && sf[p].revision == action.event.revision)
            }),
    {
        match self.surface(action) {
            Some(s) => s.revision == action.event.revision,
            None => false,
        }
    }

    /// Admits an interaction and marks its surface pending, or says why not.
    pub fn accept(&mut self, action: &UiAction) -> (r: Result<(), String>)
        ensures
            ({
                let sf = old(self)@.snapshot.surfaces;
                let p = addressed_pos(sf, *action);
                if p >= sf.len() {
                    r matches Err(m) && m@ == "unknown UI component"@ && final(self)@ == old(self)@
                } else if sf[p].revision != action.event.revision || sf[p].pending {
                    r matches Err(m) && m@ == "stale or pending UI component"@ && final(self)@ == old(self)@
                } else if !event_fits(sf[p], action.event) {
                    r matches Err(m) && m@ == "invalid UI event or value"@ && final(self)@ == old(self)@
                } else {
                    r is Ok && final(self)@ == (StateV {
                        snapshot: SnapshotV {
                            surfaces: sf.update(p, SurfaceV { pending: true, ..sf[p] }),
                            ..old(self)@.snapshot
                        },
                        ..old(self)@
                    })
                }
            }),
    {
        let p = find_addressed(&self.snapshot.surfaces, action);
        if p >= self.snapshot.surfaces.len() {
            return Err("unknown UI component".to_owned());
        }
        let s = &self.snapshot.surfaces[p];
        if s.revision != action.event.revision || s.pending {
            return Err("stale or pending UI component".to_owned());
        }
        if !event_fits_exec(s, &action.event) {
            return Err("invalid UI event or value".to_owned());
        }
        let mut t = clone_surface(s);
        t.pending = true;
        let ghost prev = self.snapshot.surfaces@;
        let ghost tv = t@;
        self.snapshot.surfaces.set(p, t);
        proof {
            assert(surfaces_view(self.snapshot.surfaces@) =~= surfaces_view(prev).update(p as int, tv));
        }
        Ok(())
    }

    /// Settles an admitted interaction once its callback returned. A cancel, or a
    /// confirmation that succeeded, closes the addressed surface; otherwise it is
    /// acknowledged with a fresh revision. An action that is no longer current
    /// changes nothing.
    pub fn finish(&mut self, action: &UiAction, succeeded: bool)
        ensures
            ({
                let sf = old(self)@.snapshot.surfaces;
                let p = addressed_pos(sf, *action);
                let k = action.event.kind;
                if !(p < sf.len() && sf[p].revision == action.event.revision) {
                    final(self)@ == old(self)@
                } else if k == UiEventType::Cancel || (succeeded && k == UiEventType::Confirm) {
                    final(self)@ == (StateV {
                        snapshot: SnapshotV { surfaces: drop_addressed(sf, *action), ..old(self)@.snapshot },
                        ..old(self)@
                    })
                } else {
                    let (s2, n2) = refresh_addressed(sf, *action, old(self)@.next_revision);
                    final(self)@ == (StateV {
                        snapshot: SnapshotV { surfaces: s2, ..old(self)@.snapshot },
                        next_revision: n2,
                    })
                }
            }),
    {
        if !self.current(action) {
            return;
        }
        if event_is(action.event.kind, UiEventType::Cancel) || (succeeded && event_is(action.event.kind, UiEventType::Confirm)) {
            self.snapshot.surfaces = drop_addressed_exec(&self.snapshot.surfaces, action);
        } else {
            let (out, next) = refresh_addressed_exec(&self.snapshot.surfaces, action, self.next_revision);
            self.snapshot.surfaces = out;
            self.next_revision = next;
        }
    }

    /// Cancels every interaction: dialogs close and each widget is acknowledged
    /// with a fresh revision.
    pub fn cancel(&mut self)
        ensures
            ({
                let (s2, n2) = reset_widgets(old(self)@.snapshot.surfaces, old(self)@.next_revision);
                final(self)@ == (StateV {
                    snapshot: SnapshotV { surfaces: s2, ..old(self)@.snapshot },
                    next_revision: n2,
                })
            }),
    {
        let ghost sv = surfaces_view(self.snapshot.surfaces@);
        let mut out: Vec<Surface> = Vec::new();
        let mut next = self.next_revision;
        let mut i: usize = 0;
        while i < self.snapshot.surfaces.len()
            invariant
                i <= self.snapshot.surfaces@.len(),
                sv == surfaces_view(self.snapshot.surfaces@),
                self@ == old(self)@,
                (surfaces_view(out@), next) == reset_widgets(sv.take(i as int), old(self)@.next_revision),
            decreases self.snapshot.surfaces@.len() - i,
        {
            proof {
                lemma_take_last(sv, i as int);
            }
            let s = &self.snapshot.surfaces[i];
            if kind_eq(s.kind, SurfaceKind::Widget) {
                let mut t = clone_surface(s);
                t.pending = false;
                t.revision = next;
                next = next_of(next);
                let ghost prev = out@;
                let ghost tv = t@;
                out.push(t);
                proof {
                    assert(surfaces_view(out@) =~= surfaces_view(prev).push(tv));
                }
            }
            i = i + 1;
        }
        proof {
            assert(sv.take(sv.len() as int) =~= sv);
        }
        self.snapshot.surfaces = out;
        self.next_revision = next;
    }
}

impl Default for State {
    fn default() -> (r: Self)
        ensures
            r@.snapshot.surfaces.len() == 0,
            r@.snapshot.statuses.len() == 0,
    {
        State::new()
    }
}

/// The batch grows one command at a time.
pub proof fn lemma_batch_next(s0: SnapshotV, n0: u64, owner: Seq<char>, cmds: Seq<CommandV>, i: int)
    requires
        0 <= i < cmds.len(),
    ensures
        apply_batch(s0, n0, owner, cmds.take(i + 1)) == match apply_batch(s0, n0, owner, cmds.take(i)) {
            None => None,
            Some((s1, n1, notes)) => {
                let (s2, n2, note) = apply_command(s1, n1, owner, cmds[i]);
                if within_limits(s2, owner) {
                    Some((s2, n2, match note {
                        Some(t) => notes.push(t),
                        None => notes,
                    }))
                } else {
                    None
                }
            },
        },
{
    reveal(apply_batch);
    assert(cmds.take(i + 1).drop_last() =~= cmds.take(i));
}

pub proof fn lemma_batch_empty(s0: SnapshotV, n0: u64, owner: Seq<char>)
    ensures
        apply_batch(s0, n0, owner, Seq::empty()) == Some((s0, n0, Seq::<Seq<char>>::empty())),
{
    reveal(apply_batch);
}

proof fn lemma_batch_none_persists(s: SnapshotV, n: u64, owner: Seq<char>, cmds: Seq<CommandV>, k: int)
    requires
        0 <= k <= cmds.len(),
        apply_batch(s, n, owner, cmds.take(k)) is None,
    ensures
        apply_batch(s, n, owner, cmds) is None,
    decreases cmds.len() - k,
{
    if k < cmds.len() {
        lemma_batch_next(s, n, owner, cmds, k);
        lemma_batch_none_persists(s, n, owner, cmds, k + 1);
    } else {
        assert(cmds.take(k) =~= cmds);
    }
}

/// The status items that belong to extensions other than `owner`, in order.
pub open spec fn others_statuses(st: Seq<StatusV>, owner: Seq<char>) -> Seq<StatusV>
    decreases st.len(),
{
    if st.len() == 0 {
        Seq::empty()
    } else if st.last().extension == owner {
        others_statuses(st.drop_last(), owner)
    } else {
        others_statuses(st.drop_last(), owner).push(st.last())
    }
}

/// The surfaces that belong to extensions other than `owner`, in order.
pub open spec fn others_surfaces(sf: Seq<SurfaceV>, owner: Seq<char>) -> Seq<SurfaceV>
    decreases sf.len(),
{
    if sf.len() == 0 {
        Seq::empty()
    } else if sf.last().extension == owner {
        others_surfaces(sf.drop_last(), owner)
    } else {
        others_surfaces(sf.drop_last(), owner).push(sf.last())
    }
}

proof fn lemma_status_pos_owned(st: Seq<StatusV>, owner: Seq<char>, id: Seq<char>, i: int)
    requires
        0 <= i < st.len(),
        same_status(st[i], owner, id),
    ensures
        0 <= status_pos(st, owner, id) < st.len(),
        same_status(st[status_pos(st, owner, id)], owner, id),
    decreases i,
{
    if exists|j: int| 0 <= j < i && same_status(#[trigger] st[j], owner, id) {
        let j = choose|j: int| 0 <= j < i && same_status(#[trigger] st[j], owner, id);
        lemma_status_pos_owned(st, owner, id, j);
    } else {
        assert(0 <= i < st.len() && same_status(st[i], owner, id) && forall|j: int|
            0 <= j < i ==> !same_status(#[trigger] st[j], owner, id));
    }
}

proof fn lemma_surface_pos_owned(sf: Seq<SurfaceV>, owner: Seq<char>, id: Seq<char>, kind: SurfaceKind, i: int)
    requires
        0 <= i < sf.len(),
        same_surface(sf[i], owner, id, kind),
    ensures
        0 <= surface_pos(sf, owner, id, kind) < sf.len(),
        same_surface(sf[surface_pos(sf, owner, id, kind)], owner, id, kind),
    decreases i,
{
    if exists|j: int| 0 <= j < i && same_surface(#[trigger] sf[j], owner, id, kind) {
        let j = choose|j: int| 0 <= j < i && same_surface(#[trigger] sf[j], owner, id, kind);
        lemma_surface_pos_owned(sf, owner, id, kind, j);
    } else {
        assert(0 <= i < sf.len() && same_surface(sf[i], owner, id, kind) && forall|j: int|
            0 <= j < i ==> !same_surface(#[trigger] sf[j], owner, id, kind));
    }
}

proof fn lemma_status_update_owned(st: Seq<StatusV>, owner: Seq<char>, p: int, x: StatusV)
    requires
        0 <= p < st.len(),
        st[p].extension == owner,
        x.extension == owner,
    ensures
        others_statuses(st.update(p, x), owner) == others_statuses(st, owner),
    decreases st.len(),
{
    let u = st.update(p, x);
    if p < st.len() - 1 {
        assert(u.drop_last() =~= st.drop_last().update(p, x));
        lemma_status_update_owned(st.drop_last(), owner, p, x);
    } else {
        assert(u.drop_last() =~= st.drop_last());
    }
}

proof fn lemma_surface_update_owned(sf: Seq<SurfaceV>, owner: Seq<char>, p: int, x: SurfaceV)
    requires
        0 <= p < sf.len(),
        sf[p].extension == owner,
        x.extension == owner,
    ensures
        others_surfaces(sf.update(p, x), owner) == others_surfaces(sf, owner),
    decreases sf.len(),
{
    let u = sf.update(p, x);
    if p < sf.len() - 1 {
        assert(u.drop_last() =~= sf.drop_last().update(p, x));
        lemma_surface_update_owned(sf.drop_last(), owner, p, x);
    } else {
        assert(u.drop_last() =~= sf.drop_last());
    }
}

proof fn lemma_drop_status_others(st: Seq<StatusV>, owner: Seq<char>, id: Seq<char>)
    ensures
        others_statuses(drop_status(st, owner, id), owner) == others_statuses(st, owner),
    decreases st.len(),
{
    if st.len() > 0 {
        lemma_drop_status_others(st.drop_last(), owner, id);
        let d = drop_status(st.drop_last(), owner, id);
        if !same_status(st.last(), owner, id) {
            assert(d.push(st.last()).drop_last() =~= d);
        }
    }
}

proof fn lemma_drop_surface_others(sf: Seq<SurfaceV>, owner: Seq<char>, id: Seq<char>, kind: SurfaceKind)
    ensures
        others_surfaces(drop_surface(sf, owner, id, kind), owner) == others_surfaces(sf, owner),
    decreases sf.len(),
{
    if sf.len() > 0 {
        lemma_drop_surface_others(sf.drop_last(), owner, id, kind);
        let d = drop_surface(sf.drop_last(), owner, id, kind);
        if !same_surface(sf.last(), owner, id, kind) {
            assert(d.push(sf.last()).drop_last() =~= d);
        }
    }
}

proof fn lemma_put_surface_others(sf: Seq<SurfaceV>, x: SurfaceV)
    ensures
        others_surfaces(put_surface(sf, x), x.extension) == others_surfaces(sf, x.extension),
{
    let p = surface_pos(sf, x.extension, x.id, x.kind);
    if exists|i: int| 0 <= i < sf.len() && same_surface(#[trigger] sf[i], x.extension, x.id, x.kind) {
        let i = choose|i: int| 0 <= i < sf.len() && same_surface(#[trigger] sf[i], x.extension, x.id, x.kind);
        lemma_surface_pos_owned(sf, x.extension, x.id, x.kind, i);
        lemma_surface_update_owned(sf, x.extension, p, x);
    } else {
        assert(sf.push(x).drop_last() =~= sf);
    }
}

proof fn lemma_set_status_others(st: Seq<StatusV>, owner: Seq<char>, id: Seq<char>, text: Seq<char>)
    ensures
        others_statuses(set_status(st, owner, id, text), owner) == others_statuses(st, owner),
{
    let p = status_pos(st, owner, id);
    if exists|i: int| 0 <= i < st.len() && same_status(#[trigger] st[i], owner, id) {
        let i = choose|i: int| 0 <= i < st.len() && same_status(#[trigger] st[i], owner, id);
        lemma_status_pos_owned(st, owner, id, i);
        lemma_status_update_owned(st, owner, p, StatusV { text: text, ..st[p] });
    } else {
        let x = StatusV { extension: owner, id: id, text: text };
        assert(st.push(x).drop_last() =~= st);
    }
}

proof fn lemma_command_keeps_others(s: SnapshotV, next: u64, owner: Seq<char>, c: CommandV)
    ensures
        others_statuses(apply_command(s, next, owner, c).0.statuses, owner) == others_statuses(s.statuses, owner),
        others_surfaces(apply_command(s, next, owner, c).0.surfaces, owner) == others_surfaces(s.surfaces, owner),
{
    match c {
        CommandV::Notify { .. } => {},
        CommandV::RemoveStatus { id } => lemma_drop_status_others(s.statuses, owner, id),
        CommandV::SetStatus { id, text } => lemma_set_status_others(s.statuses, owner, id, text),
        CommandV::RemoveWidget { id } => lemma_drop_surface_others(s.surfaces, owner, id, SurfaceKind::Widget),
        CommandV::CloseDialog { id } => lemma_drop_surface_others(s.surfaces, owner, id, SurfaceKind::Dialog),
        CommandV::SetWidget { id, placement, blocks } => lemma_put_surface_others(
            s.surfaces,
            new_surface(owner, id, SurfaceKind::Widget, next, placement, blocks, None),
        ),
        CommandV::OpenDialog { id, dialog } => lemma_put_surface_others(
            s.surfaces,
            new_surface(
                owner,
                id,
                SurfaceKind::Dialog,
                next,
                Placement::AboveEditor,
                match dialog {
                    DialogV::Form { blocks, .. } => blocks,
                    _ => Seq::empty(),
                },
                Some(dialog),
            ),
        ),
    }
}

/// An extension's batch touches only its own UI: after `apply` accepts a batch
/// from `owner`, the status items and surfaces of every other extension are
/// exactly those that were there before, in the same order.
pub proof fn law_batch_keeps_other_owners(s: SnapshotV, next: u64, owner: Seq<char>, cmds: Seq<CommandV>)
    requires
        apply_batch(s, next, owner, cmds) is Some,
    ensures
        others_statuses(apply_batch(s, next, owner, cmds)->Some_0.0.statuses, owner) == others_statuses(s.statuses, owner),
        others_surfaces(apply_batch(s, next, owner, cmds)->Some_0.0.surfaces, owner) == others_surfaces(s.surfaces, owner),
    decreases cmds.len(),
{
    reveal(apply_batch);
    if cmds.len() > 0 {
        law_batch_keeps_other_owners(s, next, owner, cmds.drop_last());
        let (s1, n1, notes) = apply_batch(s, next, owner, cmds.drop_last())->Some_0;
        lemma_command_keeps_others(s1, n1, owner, cmds.last());
    }
}

/// Every surface's revision is below `n`.
pub open spec fn revisions_below(sf: Seq<SurfaceV>, n: u64) -> bool {
    forall|i: int| 0 <= i < sf.len() ==> (#[trigger] sf[i]).revision < n
}

/// Every surface whose revision is at least `first` belongs to `owner`.
pub open spec fn fresh_owned_by(sf: Seq<SurfaceV>, first: u64, owner: Seq<char>) -> bool {
    forall|i: int| 0 <= i < sf.len() && (#[trigger] sf[i]).revision >= first ==> sf[i].extension == owner
}

proof fn lemma_drop_surface_keeps(sf: Seq<SurfaceV>, id: Seq<char>, kind: SurfaceKind, n: u64, first: u64, owner: Seq<char>)
    requires
        revisions_below(sf, n),
        fresh_owned_by(sf, first, owner),
    ensures
        revisions_below(drop_surface(sf, owner, id, kind), n),
        fresh_owned_by(drop_surface(sf, owner, id, kind), first, owner),
    decreases sf.len(),
{
    if sf.len() > 0 {
        let init = sf.drop_last();
        assert forall|i: int| 0 <= i < init.len() implies (#[trigger] init[i]).revision < n by {
            assert(init[i] == sf[i]);
        }
        assert forall|i: int| 0 <= i < init.len() && (#[trigger] init[i]).revision >= first implies init[i].extension == owner by {
            assert(init[i] == sf[i]);
        }
        lemma_drop_surface_keeps(init, id, kind, n, first, owner);
        let d = drop_surface(init, owner, id, kind);
        if !same_surface(sf.last(), owner, id, kind) {
            let e = d.push(sf.last());
            assert forall|i: int| 0 <= i < e.len() implies (#[trigger] e[i]).revision < n by {
                if i < d.len() {
                    assert(e[i] == d[i]);
                }
            }
            assert forall|i: int| 0 <= i < e.len() && (#[trigger] e[i]).revision >= first implies e[i].extension == owner by {
                if i < d.len() {
                    assert(e[i] == d[i]);
                }
            }
        }
    }
}

proof fn lemma_put_surface_keeps(sf: Seq<SurfaceV>, x: SurfaceV, n: u64, first: u64)
    requires
        revisions_below(sf, n),
        fresh_owned_by(sf, first, x.extension),
        x.revision < n,
    ensures
        revisions_below(put_surface(sf, x), n),
        fresh_owned_by(put_surface(sf, x), first, x.extension),
{
    let p = surface_pos(sf, x.extension, x.id, x.kind);
    let r = put_surface(sf, x);
    if exists|i: int| 0 <= i < sf.len() && same_surface(#[trigger] sf[i], x.extension, x.id, x.kind) {
        let j = choose|i: int| 0 <= i < sf.len() && same_surface(#[trigger] sf[i], x.extension, x.id, x.kind);
        lemma_surface_pos_owned(sf, x.extension, x.id, x.kind, j);
        assert(r == sf.update(p, x));
        assert forall|i: int| 0 <= i < r.len() implies (#[trigger] r[i]).revision < n by {
            if i != p {
                assert(r[i] == sf[i]);
            }
        }
        assert forall|i: int| 0 <= i < r.len() && (#[trigger] r[i]).revision >= first implies r[i].extension == x.extension by {
            if i != p {
                assert(r[i] == sf[i]);
            }
        }
    } else {
        assert forall|i: int| 0 <= i < r.len() implies (#[trigger] r[i]).revision < n by {
            if i < sf.len() {
                assert(r[i] == sf[i]);
            }
        }
        assert forall|i: int| 0 <= i < r.len() && (#[trigger] r[i]).revision >= first implies r[i].extension == x.extension by {
            if i < sf.len() {
                assert(r[i] == sf[i]);
            }
        }
    }
}

#[verifier::rlimit(50)]
proof fn lemma_command_revisions(s: SnapshotV, n: u64, first: u64, owner: Seq<char>, c: CommandV)
    requires
        revisions_below(s.surfaces, n),
        fresh_owned_by(s.surfaces, first, owner),
        first <= n < u64::MAX,
    ensures
        ({
            let (s2, n2, note) = apply_command(s, n, owner, c);
            &&& n <= n2 <= n + 1
            &&& revisions_below(s2.surfaces, n2)
            &&& fresh_owned_by(s2.surfaces, first, owner)
        }),
{
    match c {
        CommandV::RemoveWidget { id } => lemma_drop_surface_keeps(s.surfaces, id, SurfaceKind::Widget, n, first, owner),
        CommandV::CloseDialog { id } => lemma_drop_surface_keeps(s.surfaces, id, SurfaceKind::Dialog, n, first, owner),
        CommandV::SetWidget { id, placement, blocks } => {
            lemma_put_surface_keeps(
                s.surfaces,
                new_surface(owner, id, SurfaceKind::Widget, n, placement, blocks, None),
                (n + 1) as u64,
                first,
            );
        },
        CommandV::OpenDialog { id, dialog } => {
            lemma_put_surface_keeps(
                s.surfaces,
                new_surface(
                    owner,
                    id,
                    SurfaceKind::Dialog,
                    n,
                    Placement::AboveEditor,
                    match dialog {
                        DialogV::Form { blocks, .. } => blocks,
                        _ => Seq::empty(),
                    },
                    Some(dialog),
                ),
                (n + 1) as u64,
                first,
            );
        },
        _ => {},
    }
}

proof fn lemma_batch_revisions(s: SnapshotV, next: u64, owner: Seq<char>, cmds: Seq<CommandV>)
    requires
        apply_batch(s, next, owner, cmds) is Some,
        revisions_below(s.surfaces, next),
        next + cmds.len() < u64::MAX,
    ensures
        ({
            let (s2, n2, notes) = apply_batch(s, next, owner, cmds)->Some_0;
            &&& next <= n2 <= next + cmds.len()
            &&& revisions_below(s2.surfaces, n2)
            &&& fresh_owned_by(s2.surfaces, next, owner)
        }),
    decreases cmds.len(),
{
    reveal(apply_batch);
    if cmds.len() > 0 {
        lemma_batch_revisions(s, next, owner, cmds.drop_last());
        let (s1, n1, notes) = apply_batch(s, next, owner, cmds.drop_last())->Some_0;
        lemma_command_revisions(s1, n1, next, owner, cmds.last());
    }
}

/// Revisions only grow: when every surface's revision is below the state's next
/// revision and the batch cannot run the counter to its end, an accepted batch
/// leaves every surface below the new next revision, which has not gone back,
/// and every surface whose revision is not below the old next revision (every
/// surface set or opened by the batch) belongs to the batch's owner.
pub proof fn law_batch_revisions_grow(s: SnapshotV, next: u64, owner: Seq<char>, cmds: Seq<CommandV>)
    requires
        apply_batch(s, next, owner, cmds) is Some,
        revisions_below(s.surfaces, next),
        next + cmds.len() < u64::MAX,
    ensures
        ({
            let (s2, n2, notes) = apply_batch(s, next, owner, cmds)->Some_0;
            &&& next <= n2
            &&& revisions_below(s2.surfaces, n2)
            &&& fresh_owned_by(s2.surfaces, next, owner)
        }),
{
    lemma_batch_revisions(s, next, owner, cmds);
}

} // verus!
