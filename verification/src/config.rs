//! Cutting requirements, named templates and the overall configuration, with
//! the bookkeeping of the template list.
use vstd::prelude::*;
use crate::text::{decimal, push_decimal, push_str, string_of, chars_of, starts_with, occurs_at, trim, trim_vec, lemma_decimal_digits, lemma_decimal_injective, is_digit};
use crate::clock::{unix_time_nanos, unix_time_secs};

verus! {

// ---------------------------------------------------------------------
// Identifiers
// ---------------------------------------------------------------------

/// Source of identifiers: a clock reading plus a counter that moves on at
/// every identifier handed out.
#[derive(Debug)]
pub struct IdSource {
    pub counter: u64,
}

/// The identifier made of clock reading `nanos` and counter value `count`:
/// `u<nanos>_<count>`.
pub open spec fn uid(nanos: nat, count: nat) -> Seq<char> {
    seq!['u'] + decimal(nanos) + seq!['_'] + decimal(count)
}

/// Two identifiers made with different counter values differ, whatever the
/// clock readings: consecutive identifiers from one source are distinct.
pub proof fn lemma_uid_distinct(n1: nat, c1: nat, n2: nat, c2: nat)
    requires
        c1 != c2,
    ensures
        uid(n1, c1) != uid(n2, c2),
{
    if uid(n1, c1) == uid(n2, c2) {
        let a = uid(n1, c1);
        let b = uid(n2, c2);
        lemma_decimal_digits(n1);
        lemma_decimal_digits(n2);
        lemma_decimal_digits(c1);
        lemma_decimal_digits(c2);
        let la = decimal(n1).len() as int;
        let lb = decimal(n2).len() as int;
        // the '_' stands right after the clock digits, and nowhere among them
        if la < lb {
            assert(a[la + 1] == '_');
            assert(b[la + 1] == decimal(n2)[la]);
            assert(is_digit(decimal(n2)[la]));
        } else if lb < la {
            assert(b[lb + 1] == '_');
            assert(a[lb + 1] == decimal(n1)[lb]);
            assert(is_digit(decimal(n1)[lb]));
        } else {
            assert(a.skip(la + 2) == decimal(c1));
            assert(b.skip(lb + 2) == decimal(c2));
            lemma_decimal_injective(c1, c2);
        }
    }
}

impl IdSource {
    /// A fresh source, counting from zero.
    pub fn new() -> (r: IdSource)
        ensures
            r.counter == 0,
    {
        IdSource { counter: 0 }
    }

    /// The identifier for clock reading `nanos`; the counter moves on by one
    /// (wrapping around after `u64::MAX`).
    pub fn next_id(&mut self, nanos: u128) -> (r: String)
        ensures
            r@ == uid(nanos as nat, old(self).counter as nat),
            final(self).counter == old(self).counter.wrapping_add(1),
    {
        let mut out: Vec<char> = Vec::new();
        out.push('u');
        push_decimal(&mut out, nanos);
        out.push('_');
        push_decimal(&mut out, self.counter as u128);
        self.counter = self.counter.wrapping_add(1);
        string_of(out.as_slice())
    }
}

/// A new identifier from the clock and the counter of `ids`: `u<nanos>_<count>`.
pub fn uuid_simple(ids: &mut IdSource) -> (r: String)
    ensures
        exists|nanos: nat| r@ == uid(nanos, old(ids).counter as nat),
        final(ids).counter == old(ids).counter.wrapping_add(1),
{
    let nanos = unix_time_nanos();
    ids.next_id(nanos)
}

/// The stamp for `secs` seconds since the epoch: `ts:<secs>`.
pub open spec fn stamp(secs: nat) -> Seq<char> {
    seq!['t', 's', ':'] + decimal(secs)
}

/// `stamp(secs)` as a string.
pub fn stamp_of(secs: u64) -> (r: String)
    ensures
        r@ == stamp(secs as nat),
{
    let mut out: Vec<char> = Vec::new();
    out.push('t');
    out.push('s');
    out.push(':');
    push_decimal(&mut out, secs as u128);
    string_of(out.as_slice())
}

/// The stamp of the current time, `ts:<seconds since the epoch>`.
pub fn now_iso() -> (r: String)
    ensures
        exists|secs: nat| r@ == stamp(secs),
{
    stamp_of(unix_time_secs())
}

// ---------------------------------------------------------------------
// Requirement fields
// ---------------------------------------------------------------------

/// One requirement field: a key and its value, with an identifier that stays
/// the same while the field is edited.
#[derive(Debug)]
pub struct ReqField {
    pub id: String,
    pub key: String,
    pub value: String,
}

/// The characters of a field's identifier, key and value.
pub struct FieldView {
    pub id: Seq<char>,
    pub key: Seq<char>,
    pub value: Seq<char>,
}

impl View for ReqField {
    type V = FieldView;

    open spec fn view(&self) -> FieldView {
        FieldView { id: self.id@, key: self.key@, value: self.value@ }
    }
}

/// The views of a list of fields.
pub open spec fn field_views(v: Seq<ReqField>) -> Seq<FieldView> {
    v.map_values(|f: ReqField| f@)
}

impl ReqField {
    /// A field with a new identifier from `ids`.
    pub fn new(key: String, value: String, ids: &mut IdSource) -> (r: ReqField)
        ensures
            r.key == key,
            r.value == value,
            exists|nanos: nat| r.id@ == uid(nanos, old(ids).counter as nat),
            final(ids).counter == old(ids).counter.wrapping_add(1),
    {
        ReqField { id: uuid_simple(ids), key, value }
    }

    /// A copy of the field.
    pub fn duplicate(&self) -> (r: ReqField)
        ensures
            r == *self,
    {
        ReqField { id: self.id.clone(), key: self.key.clone(), value: self.value.clone() }
    }
}

/// What a cut should look like: free key/value fields, a target length and the
/// tolerance above it.
#[derive(Debug)]
pub struct CutRequirement {
    pub fields: Vec<ReqField>,
    /// Target length of a segment, in milliseconds.
    pub target_duration_ms: i64,
    /// How much longer than the target a segment may be, in milliseconds.
    pub tolerance_ms: i64,
}

/// A requirement seen through the views of its fields.
pub struct RequirementView {
    pub fields: Seq<FieldView>,
    pub target_duration_ms: i64,
    pub tolerance_ms: i64,
}

impl View for CutRequirement {
    type V = RequirementView;

    open spec fn view(&self) -> RequirementView {
        RequirementView {
            fields: field_views(self.fields@),
            target_duration_ms: self.target_duration_ms,
            tolerance_ms: self.tolerance_ms,
        }
    }
}

/// The keys of the default fields, in order.
pub open spec fn default_keys() -> Seq<Seq<char>> {
    seq!["素材描述"@, "用途"@, "想要的镜头"@, "不要的镜头"@]
}

/// The values of the default fields, in order.
pub open spec fn default_values() -> Seq<Seq<char>> {
    seq![
        "随手拍/混剪通用素材"@,
        "用于二次剪辑的插入素材"@,
        "主体清晰、构图好、有明确动作"@,
        "黑屏/模糊/对焦失败/剧烈抖动/静止"@,
    ]
}

/// `fields` are the default fields.
pub open spec fn is_default_fields(fields: Seq<FieldView>) -> bool {
    &&& fields.len() == 4
    &&& forall|i: int| 0 <= i < 4 ==> (#[trigger] fields[i]).key == default_keys()[i]
        && fields[i].value == default_values()[i]
}

/// The four default requirement fields, each with a new identifier.
pub fn default_requirement_fields(ids: &mut IdSource) -> (r: Vec<ReqField>)
    ensures
        is_default_fields(field_views(r@)),
{
    let mut r: Vec<ReqField> = Vec::new();
    r.push(ReqField::new(String::from_str("素材描述"), String::from_str("随手拍/混剪通用素材"), ids));
    r.push(ReqField::new(String::from_str("用途"), String::from_str("用于二次剪辑的插入素材"), ids));
    r.push(ReqField::new(String::from_str("想要的镜头"), String::from_str("主体清晰、构图好、有明确动作"), ids));
    r.push(ReqField::new(String::from_str("不要的镜头"), String::from_str("黑屏/模糊/对焦失败/剧烈抖动/静止"), ids));
    r
}

/// Default target length: 5 s.
pub fn default_target_duration() -> (r: i64)
    ensures
        r == 5000,
{
    5000
}

/// Default tolerance: 1 s.
pub fn default_tolerance() -> (r: i64)
    ensures
        r == 1000,
{
    1000
}

impl CutRequirement {
    /// The default requirement: the default fields, 5 s target, 1 s tolerance.
    pub fn default_with(ids: &mut IdSource) -> (r: CutRequirement)
        ensures
            is_default_fields(r@.fields),
            r.target_duration_ms == 5000,
            r.tolerance_ms == 1000,
    {
        CutRequirement {
            fields: default_requirement_fields(ids),
            target_duration_ms: default_target_duration(),
            tolerance_ms: default_tolerance(),
        }
    }
}


impl CutRequirement {
    /// A copy of the requirement.
    pub fn duplicate(&self) -> (r: CutRequirement)
        ensures
            r@ == self@,
    {
        let mut fields: Vec<ReqField> = Vec::new();
        let mut i: usize = 0;
        while i < self.fields.len()
            invariant
                i <= self.fields@.len(),
                fields@ == self.fields@.take(i as int),
            decreases self.fields@.len() - i,
        {
            fields.push(self.fields[i].duplicate());
            i = i + 1;
            assert(fields@ == self.fields@.take(i as int));
        }
        assert(fields@ == self.fields@);
        assert(field_views(fields@) == field_views(self.fields@));
        CutRequirement {
            fields,
            target_duration_ms: self.target_duration_ms,
            tolerance_ms: self.tolerance_ms,
        }
    }
}

// ---------------------------------------------------------------------
// Templates
// ---------------------------------------------------------------------

/// A named requirement; built-in templates cannot be deleted.
#[derive(Debug)]
pub struct CutTemplate {
    pub id: String,
    pub name: String,
    pub requirement: CutRequirement,
    pub builtin: bool,
    pub updated_at: String,
}

/// A template seen through the views of its parts.
pub struct TemplateView {
    pub id: Seq<char>,
    pub name: Seq<char>,
    pub requirement: RequirementView,
    pub builtin: bool,
    pub updated_at: Seq<char>,
}

impl View for CutTemplate {
    type V = TemplateView;

    open spec fn view(&self) -> TemplateView {
        TemplateView {
            id: self.id@,
            name: self.name@,
            requirement: self.requirement@,
            builtin: self.builtin,
            updated_at: self.updated_at@,
        }
    }
}

impl CutTemplate {
    /// The built-in template: identifier `builtin-default`, no update stamp.
    pub fn new_builtin(name: String, req: CutRequirement) -> (r: CutTemplate)
        ensures
            r.id@ == "builtin-default"@,
            r.name == name,
            r.requirement@ == req@,
            r.builtin,
            r.updated_at@ == Seq::<char>::empty(),
    {
        CutTemplate {
            id: String::from_str("builtin-default"),
            name,
            requirement: req,
            builtin: true,
            updated_at: String::new(),
        }
    }

    /// A copy of the template.
    pub fn duplicate(&self) -> (r: CutTemplate)
        ensures
            r@ == self@,
    {
        CutTemplate {
            id: self.id.clone(),
            name: self.name.clone(),
            requirement: self.requirement.duplicate(),
            builtin: self.builtin,
            updated_at: self.updated_at.clone(),
        }
    }
}

/// The saved templates, in order.
#[derive(Debug)]
pub struct TemplateList {
    pub templates: Vec<CutTemplate>,
}

impl View for TemplateList {
    type V = Seq<TemplateView>;

    open spec fn view(&self) -> Seq<TemplateView> {
        self.templates@.map_values(|t: CutTemplate| t@)
    }
}

/// The position of the first template with identifier `id`.
pub open spec fn position_of(ts: Seq<TemplateView>, id: Seq<char>) -> Option<int>
    decreases ts.len(),
{
    if ts.len() == 0 {
        None
    } else if ts[0].id == id {
        Some(0)
    } else {
        match position_of(ts.drop_first(), id) {
            Some(p) => Some(p + 1),
            None => None,
        }
    }
}

proof fn lemma_position_of(ts: Seq<TemplateView>, id: Seq<char>, i: int)
    requires
        0 <= i <= ts.len(),
        forall|k: int| 0 <= k < i ==> (#[trigger] ts[k]).id != id,
    ensures
        i < ts.len() && ts[i].id == id ==> position_of(ts, id) == Some(i),
        i == ts.len() ==> position_of(ts, id) is None,
    decreases i,
{
    if i > 0 {
        lemma_position_of(ts.drop_first(), id, i - 1);
    }
}

/// `position_of` is a position holding `id`, with none before it.
pub proof fn lemma_position_of_found(ts: Seq<TemplateView>, id: Seq<char>)
    ensures
        match position_of(ts, id) {
            Some(p) => 0 <= p < ts.len() && ts[p].id == id && forall|k: int| 0 <= k < p ==> (#[trigger] ts[k]).id != id,
            None => forall|k: int| 0 <= k < ts.len() ==> (#[trigger] ts[k]).id != id,
        },
    decreases ts.len(),
{
    if ts.len() > 0 {
        lemma_position_of_found(ts.drop_first(), id);
        if ts[0].id != id {
            match position_of(ts.drop_first(), id) {
                Some(p) => {
                    assert forall|k: int| 0 <= k < p + 1 implies (#[trigger] ts[k]).id != id by {
                        if k > 0 {
                            assert(ts[k] == ts.drop_first()[k - 1]);
                        }
                    }
                },
                None => {
                    assert forall|k: int| 0 <= k < ts.len() implies (#[trigger] ts[k]).id != id by {
                        if k > 0 {
                            assert(ts[k] == ts.drop_first()[k - 1]);
                        }
                    }
                },
            }
        }
    }
}

/// The error text for an unknown template identifier.
pub open spec fn missing_template_message(id: Seq<char>) -> Seq<char> {
    "模板不存在: "@ + id
}

/// The error text for deleting a built-in template.
pub open spec fn builtin_undeletable_message() -> Seq<char> {
    "内置模板不可删除"@
}

fn missing_template_error(id: &String) -> (r: String)
    ensures
        r@ == missing_template_message(id@),
{
    let mut out: Vec<char> = Vec::new();
    push_str(&mut out, "模板不存在: ");
    push_str(&mut out, id.as_str());
    string_of(out.as_slice())
}

/// Removing the last element of `ts.push(t)` gives back `ts`.
pub proof fn lemma_push_remove(ts: Seq<TemplateView>, t: TemplateView)
    ensures
        ts.push(t).remove(ts.len() as int) == ts,
{
    assert(ts.push(t).remove(ts.len() as int) =~= ts);
}

impl TemplateList {
    /// The list holding only the built-in template, named `通用素材（内置）`,
    /// with the default requirement.
    pub fn initial(ids: &mut IdSource) -> (r: TemplateList)
        ensures
            r@.len() == 1,
            r@[0].builtin,
            r@[0].id == "builtin-default"@,
            r@[0].name == "通用素材（内置）"@,
            is_default_fields(r@[0].requirement.fields),
            r@[0].requirement.target_duration_ms == 5000,
            r@[0].requirement.tolerance_ms == 1000,
            r@[0].updated_at == Seq::<char>::empty(),
    {
        let t = CutTemplate::new_builtin(String::from_str("通用素材（内置）"), CutRequirement::default_with(ids));
        let mut v: Vec<CutTemplate> = Vec::new();
        v.push(t);
        TemplateList { templates: v }
    }

    /// The position of the first template with identifier `id`.
    pub fn position(&self, id: &String) -> (r: Option<usize>)
        ensures
            match r {
                Some(p) => position_of(self@, id@) == Some(p as int) && p < self@.len(),
                None => position_of(self@, id@) is None,
            },
    {
        let mut i: usize = 0;
        while i < self.templates.len()
            invariant
                i <= self.templates@.len(),
                forall|k: int| 0 <= k < i ==> (#[trigger] self@[k]).id != id@,
            decreases self.templates@.len() - i,
        {
            if self.templates[i].id == *id {
                proof {
                    lemma_position_of(self@, id@, i as int);
                }
                return Some(i);
            }
            i = i + 1;
        }
        proof {
            lemma_position_of(self@, id@, i as int);
        }
        None
    }

    /// Saves a template: over the template with identifier `existing_id` when
    /// one is given (keeping its place and its built-in flag), else as a new
    /// template with a new identifier from `ids`, added at the end. The stamp
    /// is the current time. Returns the saved template.
    pub fn save_template(
        &mut self,
        name: String,
        requirement: CutRequirement,
        existing_id: Option<String>,
        ids: &mut IdSource,
    ) -> (r: Result<CutTemplate, String>)
        ensures
            match existing_id {
                Some(id) => match position_of(old(self)@, id@) {
                    Some(p) => r matches Ok(t) && ({
                        &&& t.id@ == id@
                        &&& t.name@ == name@
                        &&& t.requirement@ == requirement@
                        &&& t.builtin == old(self)@[p].builtin
                        &&& exists|secs: nat| t.updated_at@ == stamp(secs)
                        &&& final(self)@ == old(self)@.update(p, t@)
                    }),
                    None => r matches Err(e) && e@ == missing_template_message(id@)
                        && final(self)@ == old(self)@,
                },
                None => r matches Ok(t) && ({
                    &&& exists|nanos: nat| t.id@ == uid(nanos, old(ids).counter as nat)
                    &&& t.name@ == name@
                    &&& t.requirement@ == requirement@
                    &&& !t.builtin
                    &&& exists|secs: nat| t.updated_at@ == stamp(secs)
                    &&& final(self)@ == old(self)@.push(t@)
                }),
            },
            existing_id is None ==> final(ids).counter == old(ids).counter.wrapping_add(1),
            existing_id is Some ==> final(ids).counter == old(ids).counter,
    {
        match existing_id {
            Some(id) => {
                match self.position(&id) {
                    None => Err(missing_template_error(&id)),
                    Some(pos) => {
                        let builtin = self.templates[pos].builtin;
                        let t = CutTemplate { id, name, requirement, builtin, updated_at: now_iso() };
                        let copy = t.duplicate();
                        let ghost before = self.templates@;
                        self.templates.set(pos, copy);
                        assert(self.templates@ == before.update(pos as int, copy));
                        assert(self@ =~= old(self)@.update(pos as int, t@));
                        Ok(t)
                    },
                }
            },
            None => {
                let t = CutTemplate {
                    id: uuid_simple(ids),
                    name,
                    requirement,
                    builtin: false,
                    updated_at: now_iso(),
                };
                let copy = t.duplicate();
                self.templates.push(copy);
                assert(self@ =~= old(self)@.push(t@));
                Ok(t)
            },
        }
    }

    /// Deletes the template with identifier `id`; built-in templates are refused.
    pub fn delete_template(&mut self, id: &String) -> (r: Result<(), String>)
        ensures
            match position_of(old(self)@, id@) {
                Some(p) => if old(self)@[p].builtin {
                    r matches Err(e) && e@ == builtin_undeletable_message()
                        && final(self)@ == old(self)@
                } else {
                    r is Ok && final(self)@ == old(self)@.remove(p)
                },
                None => r matches Err(e) && e@ == missing_template_message(id@)
                    && final(self)@ == old(self)@,
            },
    {
        match self.position(id) {
            None => Err(missing_template_error(id)),
            Some(pos) => {
                if self.templates[pos].builtin {
                    return Err(String::from_str("内置模板不可删除"));
                }
                let ghost before = self.templates@;
                self.templates.remove(pos);
                assert(self.templates@ == before.remove(pos as int));
                assert(self@ =~= old(self)@.remove(pos as int));
                Ok(())
            },
        }
    }
}

/// Deleting a template that was just saved as new gives back the list as it
/// was before the save, provided its identifier was not already in the list.
pub proof fn lemma_delete_undoes_new_save(ts: Seq<TemplateView>, t: TemplateView)
    requires
        position_of(ts, t.id) is None,
        !t.builtin,
    ensures
        position_of(ts.push(t), t.id) == Some(ts.len() as int),
        !ts.push(t)[ts.len() as int].builtin,
        ts.push(t).remove(ts.len() as int) == ts,
{
    lemma_position_of_found(ts, t.id);
    let s = ts.push(t);
    assert forall|k: int| 0 <= k < ts.len() implies (#[trigger] s[k]).id != t.id by {
        assert(s[k] == ts[k]);
    }
    lemma_position_of(s, t.id, ts.len() as int);
    lemma_push_remove(ts, t);
}

/// Saving over an existing template keeps every identifier where it was, so a
/// later lookup by identifier finds the saved template at the same place.
pub proof fn lemma_save_existing_found(ts: Seq<TemplateView>, p: int, t: TemplateView)
    requires
        position_of(ts, t.id) == Some(p),
    ensures
        position_of(ts.update(p, t), t.id) == Some(p),
        ts.update(p, t)[p] == t,
{
    lemma_position_of_found(ts, t.id);
    let s = ts.update(p, t);
    assert forall|k: int| 0 <= k < p implies (#[trigger] s[k]).id != t.id by {
        assert(s[k] == ts[k]);
    }
    lemma_position_of(s, t.id, p);
}


// ---------------------------------------------------------------------
// Overall configuration
// ---------------------------------------------------------------------

/// Default frame rate for frame extraction: 1 frame per second (in
/// thousandths of a frame per second).
pub fn default_fps() -> (r: i64)
    ensures
        r == 1000,
{
    1000
}

/// Default longest side of an extracted frame, in pixels.
pub fn default_frame_size() -> (r: u32)
    ensures
        r == 480,
{
    480
}

/// Default length of the window sent to the model at once: 120 s.
pub fn default_chunk_secs() -> (r: i64)
    ensures
        r == 120000,
{
    120000
}

/// By default the model is used.
pub fn default_use_ai() -> (r: bool)
    ensures
        r,
{
    true
}

/// By default segments of all videos go to one folder.
pub fn default_group_by_video() -> (r: bool)
    ensures
        !r,
{
    false
}

/// By default a last segment shorter than the target is not kept.
pub fn default_trim_last_short() -> (r: bool)
    ensures
        r,
{
    true
}

/// By default used videos are left where they are.
pub fn default_used_video_action() -> (r: String)
    ensures
        r@ == "none"@,
{
    String::from_str("none")
}

/// The whole configuration of the cutter.
#[derive(Debug)]
pub struct AIConfig {
    /// Base URL of an OpenAI-compatible endpoint.
    pub base_url: String,
    pub api_key: String,
    pub model: String,
    /// Frame extraction rate, in thousandths of a frame per second.
    pub fps: i64,
    /// Longest side of an extracted frame, in pixels.
    pub frame_max_size: u32,
    /// Length of the window analysed at once, in milliseconds (0 or less: 120 s).
    pub chunk_secs: i64,
    pub use_ai: bool,
    pub group_by_video: bool,
    /// In plain cutting, drop a last segment shorter than the target.
    pub trim_last_short_segment: bool,
    pub requirement: CutRequirement,
    /// The template being edited, if it was loaded from one.
    pub current_template_id: Option<String>,
    pub last_input_folder: String,
    pub last_output_folder: String,
    /// What to do with used videos: `none`, `delete` or `move`.
    pub used_video_action: String,
}

impl AIConfig {
    /// The default configuration: no endpoint, key or model; 1 frame per
    /// second at 480 px, 120 s windows, model on, one output folder, short last
    /// segments dropped, the default requirement, no template, no folders, used
    /// videos left alone.
    pub fn default_with(ids: &mut IdSource) -> (r: AIConfig)
        ensures
            r.base_url@ == Seq::<char>::empty(),
            r.api_key@ == Seq::<char>::empty(),
            r.model@ == Seq::<char>::empty(),
            r.fps == 1000,
            r.frame_max_size == 480,
            r.chunk_secs == 120000,
            r.use_ai,
            !r.group_by_video,
            r.trim_last_short_segment,
            is_default_fields(r.requirement@.fields),
            r.requirement.target_duration_ms == 5000,
            r.requirement.tolerance_ms == 1000,
            r.current_template_id is None,
            r.last_input_folder@ == Seq::<char>::empty(),
            r.last_output_folder@ == Seq::<char>::empty(),
            r.used_video_action@ == "none"@,
    {
        AIConfig {
            base_url: String::new(),
            api_key: String::new(),
            model: String::new(),
            fps: default_fps(),
            frame_max_size: default_frame_size(),
            chunk_secs: default_chunk_secs(),
            use_ai: default_use_ai(),
            group_by_video: default_group_by_video(),
            trim_last_short_segment: default_trim_last_short(),
            requirement: CutRequirement::default_with(ids),
            current_template_id: None,
            last_input_folder: String::new(),
            last_output_folder: String::new(),
            used_video_action: default_used_video_action(),
        }
    }
}

// ---------------------------------------------------------------------
// Where the configuration lives
// ---------------------------------------------------------------------

/// `dir` joined with `name` as `Path::join` does on Unix: an absolute `name`
/// replaces `dir`; otherwise a `/` is put between unless `dir` is empty or
/// already ends with one.
pub open spec fn joined(dir: Seq<char>, name: Seq<char>) -> Seq<char> {
    if name.len() > 0 && name[0] == '/' {
        name
    } else if dir.len() == 0 || dir.last() == '/' {
        dir + name
    } else {
        dir + seq!['/'] + name
    }
}

/// Joins `dir` and the relative name `name`.
pub fn join_path(dir: &str, name: &str) -> (r: String)
    ensures
        r@ == joined(dir@, name@),
{
    let n = chars_of(name);
    if n.len() > 0 && n[0] == '/' {
        return string_of(n.as_slice());
    }
    let mut out = chars_of(dir);
    if out.len() > 0 && out[out.len() - 1] != '/' {
        out.push('/');
    }
    push_str(&mut out, name);
    string_of(out.as_slice())
}

/// The configuration folder under the home folder `home`:
/// `<home>/Library/Application Support/com.cola.cutter`.
pub open spec fn config_dir_of(home: Seq<char>) -> Seq<char> {
    joined(joined(joined(home, "Library"@), "Application Support"@), "com.cola.cutter"@)
}

/// The configuration folder under `home`.
pub fn config_dir(home: &str) -> (r: String)
    ensures
        r@ == config_dir_of(home@),
{
    proof {
        reveal_strlit("Library");
        reveal_strlit("Application Support");
        reveal_strlit("com.cola.cutter");
    }
    let a = join_path(home, "Library");
    let b = join_path(a.as_str(), "Application Support");
    join_path(b.as_str(), "com.cola.cutter")
}

/// The file holding the configuration, in the configuration folder `dir`.
pub fn config_path(dir: &str) -> (r: String)
    ensures
        r@ == joined(dir@, "ai_config.json"@),
{
    proof {
        reveal_strlit("ai_config.json");
    }
    join_path(dir, "ai_config.json")
}

/// The file holding the templates, in the configuration folder `dir`.
pub fn templates_path(dir: &str) -> (r: String)
    ensures
        r@ == joined(dir@, "templates.json"@),
{
    proof {
        reveal_strlit("templates.json");
    }
    join_path(dir, "templates.json")
}

/// The home folder taken from `$HOME`, accepted only when it lies under `/Users/`.
pub fn home_from_env(home: &str) -> (r: Option<String>)
    ensures
        match r {
            Some(h) => occurs_at(home@, "/Users/"@, 0) && h@ == home@,
            None => !occurs_at(home@, "/Users/"@, 0),
        },
{
    let v = chars_of(home);
    let prefix = chars_of("/Users/");
    if starts_with(v.as_slice(), prefix.as_slice()) {
        Some(String::from_str(home))
    } else {
        None
    }
}

/// The home folder of the user whose name the system reported as `raw`
/// (surrounding whitespace dropped): `/Users/<name>`, or `None` for an empty name.
pub fn home_from_username(raw: &str) -> (r: Option<String>)
    ensures
        match r {
            Some(h) => trim(raw@).len() > 0 && h@ == "/Users/"@ + trim(raw@),
            None => trim(raw@).len() == 0,
        },
{
    let v = chars_of(raw);
    let name = trim_vec(v.as_slice());
    if name.len() == 0 {
        return None;
    }
    let mut out = chars_of("/Users/");
    crate::text::push_all(&mut out, name.as_slice());
    Some(string_of(out.as_slice()))
}

} // verus!
