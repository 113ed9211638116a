//! Loading a schema from files, where a field list may name other schema files whose
//! structures and field items are spliced in at that place.
//!
//! Reading files and resolving paths are left to the caller, which drives a
//! [`SchemaFileLoader`]: it hands in each resolved path ([`SchemaFileLoader::enter`]) and
//! each file's text ([`SchemaFileLoader::file_read`]), and performs the [`LoadStep`] it
//! gets back, until the loader is done.
use vstd::prelude::*;
use crate::ast::{copy_string, Endianness, FieldItem, Schema, StructureDef};
use crate::parser::{lemma_violation_by_views, lemma_violation_by_structure_views, lemma_decoded_schemas_agree, lemma_document_failure_unique, same_error, same_schema, text_parsed, document_names_other_file, map_lookup, schema_decodes, spec_dec_field_def, structure_decodes, document_entries, document_failure, document_list, document_loads, header_decodes, opt_entry, parse_raw_schema_str, spec_dec_endianness, spec_raw_item,
    schema_is_valid, schema_violation, validate_include_endianness, validate_schema, endianness_mismatch_text,
    RawFieldItem, RawSchema};
use crate::schema_error::SchemaError;
use crate::text::str_equal;
use crate::yaml::{yaml_document, YamlNode};

verus! {

/// A schema file being loaded: its resolved path, its header, what has been gathered from it
/// so far, and its field-list entries still to handle, the next one last.
#[derive(Debug)]
pub struct LoadFrame {
    pub path: String,
    pub schema_name: String,
    pub schema_version: u32,
    pub endianness: Option<Endianness>,
    pub structures: Vec<StructureDef>,
    pub fields: Vec<FieldItem>,
    pub pending: Vec<RawFieldItem>,
}

/// The content of a [`LoadFrame`], with the entries still to handle in order.
pub struct FrameView {
    pub path: Seq<char>,
    pub schema_name: String,
    pub schema_version: u32,
    pub endianness: Option<Endianness>,
    pub structures: Seq<StructureDef>,
    pub fields: Seq<FieldItem>,
    pub pending: Seq<RawFieldItem>,
}

impl View for LoadFrame {
    type V = FrameView;

    open spec fn view(&self) -> FrameView {
        FrameView {
            path: self.path@,
            schema_name: self.schema_name,
            schema_version: self.schema_version,
            endianness: self.endianness,
            structures: self.structures@,
            fields: self.fields@,
            pending: self.pending@.reverse(),
        }
    }
}

/// The views of a stack of frames.
pub open spec fn frames_view(frames: Seq<LoadFrame>) -> Seq<FrameView> {
    frames.map_values(|f: LoadFrame| f@)
}

/// Whether `s` is the schema a finished frame stands for.
pub open spec fn schema_of_frame(s: Schema, f: FrameView) -> bool {
    &&& s.schema_name == f.schema_name
    &&& s.schema_version == f.schema_version
    &&& s.endianness == f.endianness
    &&& s.structures@ == f.structures
    &&& s.fields@ == f.fields
}

/// The files being loaded, outermost first, and the gathered content of each.
#[derive(Debug)]
pub struct SchemaFileLoader {
    pub opened: Vec<String>,
    pub frames: Vec<LoadFrame>,
    pub root_endianness: Option<Endianness>,
}

/// What the caller does next.
#[derive(Debug)]
pub enum LoadStep {
    /// Read the file at `path` and hand its text, or the read error's message, to
    /// [`SchemaFileLoader::file_read`].
    ReadFile { path: String },
    /// Resolve `path` against the directory of the file `from`, and hand the resolved path
    /// to [`SchemaFileLoader::enter`].
    Resolve { from: String, path: String },
    /// Call [`SchemaFileLoader::resume`].
    Continue,
    /// Loading has ended.
    Done(Result<Schema, SchemaError>),
}

/// The paths `ps` joined by ` -> `.
pub open spec fn arrow_join(ps: Seq<Seq<char>>) -> Seq<char>
    decreases ps.len(),
{
    if ps.len() == 0 {
        Seq::empty()
    } else if ps.len() == 1 {
        ps[0]
    } else {
        arrow_join(ps.drop_last()) + " -> "@ + ps.last()
    }
}

/// The texts of a sequence of strings.
pub open spec fn path_texts(v: Seq<String>) -> Seq<Seq<char>> {
    v.map_values(|s: String| s@)
}

/// The first position of `p` among `ps`.
pub open spec fn first_position(ps: Seq<Seq<char>>, p: Seq<char>) -> Option<int> {
    if exists|i: int| 0 <= i < ps.len() && ps[i] == p {
        Some(choose|i: int| 0 <= i < ps.len() && ps[i] == p && forall|j: int| 0 <= j < i ==> ps[j] != p)
    } else {
        None
    }
}

/// The cycle reported when `p` is entered again: the files from its first entry on, then
/// `p` once more.
pub open spec fn cycle_text(ps: Seq<Seq<char>>, p: Seq<char>) -> Option<Seq<char>> {
    match first_position(ps, p) {
        Some(i) => Some(arrow_join(ps.skip(i).push(p))),
        None => None,
    }
}

proof fn lemma_first_position(ps: Seq<Seq<char>>, p: Seq<char>, i: int)
    requires
        0 <= i < ps.len(),
        ps[i] == p,
        forall|j: int| 0 <= j < i ==> ps[j] != p,
    ensures
        first_position(ps, p) == Some(i),
{
    let k = choose|k: int| 0 <= k < ps.len() && ps[k] == p && forall|j: int| 0 <= j < k ==> ps[j] != p;
    if k < i {
        assert(ps[k] != p);
    }
    if i < k {
        assert(ps[i] != p);
    }
}

fn cycle_string(opened: &Vec<String>, start: usize, last: &String) -> (s: String)
    requires
        start < opened.len(),
    ensures
        s@ == arrow_join(path_texts(opened@).skip(start as int).push(last@)),
{
    let ghost ps = path_texts(opened@).skip(start as int).push(last@);
    let mut s = copy_string(&opened[start]);
    let mut k: usize = start + 1;
    assert(ps.take(1) =~= seq![opened@[start as int]@]);
    while k < opened.len()
        invariant
            start < k <= opened.len(),
            ps == path_texts(opened@).skip(start as int).push(last@),
            s@ == arrow_join(ps.take(k - start)),
        decreases opened.len() - k,
    {
        s.append(" -> ");
        s.append(opened[k].as_str());
        assert(ps.take(k + 1 - start).drop_last() =~= ps.take(k - start));
        k += 1;
    }
    s.append(" -> ");
    s.append(last.as_str());
    assert(ps.drop_last() =~= ps.take(k - start));
    assert(ps.take(ps.len() as int) =~= ps);
    s
}

/// The work left: every entry still to handle, and every frame still to finish.
pub open spec fn work_left(frames: Seq<FrameView>) -> nat
    decreases frames.len(),
{
    if frames.len() == 0 { 0 } else { work_left(frames.drop_last()) + frames.last().pending.len() + 1 }
}

impl SchemaFileLoader {
    /// Whether the loader's parts agree: one open file per frame, plus the file whose text
    /// is awaited, if any.
    pub open spec fn wf(&self) -> bool {
        self.opened@.len() == self.frames@.len() || self.opened@.len() == self.frames@.len() + 1
    }

    /// Whether the loader waits for a path to enter.
    pub open spec fn awaits_path(&self) -> bool {
        self.opened@.len() == self.frames@.len()
    }

    /// Whether the loader waits for the text of the file last entered.
    pub open spec fn awaits_text(&self) -> bool {
        self.opened@.len() == self.frames@.len() + 1
    }

    /// A loader with nothing opened yet.
    pub fn new() -> (l: SchemaFileLoader)
        ensures
            l.opened@.len() == 0,
            l.frames@.len() == 0,
            l.root_endianness is None,
    {
        SchemaFileLoader { opened: Vec::new(), frames: Vec::new(), root_endianness: None }
    }

    /// Enters the file resolved to `normalized`. A file that is already being loaded closes
    /// a cycle, which ends the load; otherwise the file is opened and is to be read.
    pub fn enter(&mut self, normalized: String) -> (step: LoadStep)
        requires
            old(self).awaits_path(),
        ensures
            entered(*old(self), *final(self), normalized, step),

    {
        let ghost ps = path_texts(self.opened@);
        let mut i: usize = 0;
        while i < self.opened.len()
            invariant
                i <= self.opened.len(),
                ps == path_texts(self.opened@),
                forall|j: int| 0 <= j < i ==> ps[j] != normalized@,
            decreases self.opened.len() - i,
        {
            if str_equal(self.opened[i].as_str(), normalized.as_str()) {
                proof { lemma_first_position(ps, normalized@, i as int); }
                let cycle = cycle_string(&self.opened, i, &normalized);
                return LoadStep::Done(Err(SchemaError::IncludeCycle { cycle }));
            }
            i += 1;
        }
        assert(first_position(ps, normalized@) is None);
        let path = copy_string(&normalized);
        self.opened.push(normalized);
        LoadStep::ReadFile { path }
    }
}

/// Whether `f` is the fresh frame for a document `n` read from `path`: its header and
/// structures, nothing gathered yet, and all its field-list entries still to handle.
pub open spec fn fresh_frame(n: YamlNode, path: Seq<char>, f: FrameView) -> bool {
    let items = document_list(n, "fields"@);
    &&& f.path == path
    &&& header_decodes(n, f.schema_name, f.schema_version, f.endianness, f.structures)
    &&& f.fields.len() == 0
    &&& f.pending.len() == items.len()
    &&& forall|i: int| 0 <= i < items.len() ==> spec_raw_item(#[trigger] items[i]) == Ok::<RawFieldItem, Option<Seq<char>>>(f.pending[i])
}

/// `f` with its next entry handled: moved to the gathered field items, or, for an entry
/// naming another file, set aside.
pub open spec fn frame_after_entry(f: FrameView) -> FrameView {
    FrameView {
        fields: match f.pending[0] {
            RawFieldItem::FieldItem(item) => f.fields.push(item),
            RawFieldItem::Include { .. } => f.fields,
        },
        pending: f.pending.drop_first(),
        ..f
    }
}

/// `parent` with a finished frame's structures and field items added at its end.
pub open spec fn frame_after_child(parent: FrameView, child: FrameView) -> FrameView {
    FrameView {
        structures: parent.structures + child.structures,
        fields: parent.fields + child.fields,
        ..parent
    }
}

fn reversed(v: Vec<RawFieldItem>) -> (r: Vec<RawFieldItem>)
    ensures
        r@.reverse() == v@,
{
    let ghost orig = v@;
    let mut v = v;
    let mut r: Vec<RawFieldItem> = Vec::new();
    while v.len() > 0
        invariant
            orig == v@ + r@.reverse(),
        decreases v.len(),
    {
        let ghost before_r = r@;
        let ghost before_v = v@;
        let x = v.pop().unwrap();
        r.push(x);
        assert(r@.reverse() =~= seq![x] + before_r.reverse());
        assert(before_v =~= v@.push(x));
        assert(orig =~= v@ + r@.reverse());
    }
    assert(orig =~= r@.reverse());
    r
}

impl SchemaFileLoader {
    /// Takes the text of the file last entered, or the message of the error reading it. A
    /// read error, a text that does not load as a schema document, or a byte order that
    /// differs from the root schema's ends the load; otherwise the document becomes a new
    /// frame and loading continues.
    pub fn file_read(&mut self, text: Result<String, String>) -> (step: LoadStep)
        requires
            old(self).awaits_text(),
        ensures
            text_read(*old(self), *final(self), text, step),

    {
        let last = self.opened.len() - 1;
        let path = copy_string(&self.opened[last]);
        let text = match text {
            Ok(t) => t,
            Err(m) => return LoadStep::Done(Err(SchemaError::Io { path, source: m })),
        };
        let raw = match parse_raw_schema_str(text.as_str()) {
            Ok(raw) => raw,
            Err(e) => return LoadStep::Done(Err(e)),
        };
        let root = if self.frames.len() == 0 { raw.endianness } else { self.root_endianness };
        match validate_include_endianness(root, raw.endianness, path.as_str()) {
            Ok(()) => {},
            Err(e) => return LoadStep::Done(Err(e)),
        }
        let RawSchema { schema_name, schema_version, endianness, structures, fields } = raw;
        let pending = reversed(fields);
        let frame = LoadFrame { path, schema_name, schema_version, endianness, structures, fields: Vec::new(), pending };
        self.root_endianness = root;
        let ghost before = self.frames@;
        self.frames.push(frame);
        assert(frames_view(self.frames@).drop_last() =~= frames_view(before));
        LoadStep::Continue
    }
}

pub proof fn lemma_work_left_update(fv: Seq<FrameView>, f: FrameView)
    requires
        fv.len() > 0,
    ensures
        work_left(fv.update(fv.len() - 1, f)) == work_left(fv.drop_last()) + f.pending.len() + 1,
        work_left(fv) == work_left(fv.drop_last()) + fv.last().pending.len() + 1,
{
    assert(fv.update(fv.len() - 1, f).drop_last() =~= fv.drop_last());
}

/// Whether the finished frame `f` stands for a valid schema.
pub open spec fn frame_valid(f: FrameView) -> bool {
    exists|s: Schema| #[trigger] schema_of_frame(s, f) && schema_is_valid(s)
}

/// The frames on which loading next needs the caller or ends, from `fv` on: field items are
/// gathered and valid finished inner files spliced into the file below, until the top frame's
/// next entry names another file, or the top frame is finished and is the outermost file or
/// is not valid.
pub open spec fn settle_point(fv: Seq<FrameView>) -> Seq<FrameView>
    decreases work_left(fv),
{
    if fv.len() == 0 {
        fv
    } else {
        let k = fv.len() - 1;
        let top = fv.last();
        if top.pending.len() > 0 {
            if top.pending[0] is FieldItem {
                proof { lemma_work_left_update(fv, frame_after_entry(top)); }
                settle_point(fv.update(k, frame_after_entry(top)))
            } else {
                fv
            }
        } else if frame_valid(top) && fv.len() > 1 {
            proof {
                lemma_work_left_update(fv, top);
                lemma_work_left_update(fv.drop_last(), frame_after_child(fv[k - 1], top));
            }
            settle_point(fv.drop_last().update(k - 1, frame_after_child(fv[k - 1], top)))
        } else {
            fv
        }
    }
}

proof fn lemma_settle_point_nonempty(fv: Seq<FrameView>)
    requires
        fv.len() > 0,
    ensures
        settle_point(fv).len() > 0,
        settle_point(fv).len() <= fv.len(),
    decreases work_left(fv),
{
    let k = fv.len() - 1;
    let top = fv.last();
    if top.pending.len() > 0 {
        if top.pending[0] is FieldItem {
            lemma_work_left_update(fv, frame_after_entry(top));
            lemma_settle_point_nonempty(fv.update(k, frame_after_entry(top)));
        }
    } else if frame_valid(top) && fv.len() > 1 {
        lemma_work_left_update(fv, top);
        lemma_work_left_update(fv.drop_last(), frame_after_child(fv[k - 1], top));
        lemma_settle_point_nonempty(fv.drop_last().update(k - 1, frame_after_child(fv[k - 1], top)));
    }
}

impl SchemaFileLoader {
    /// Handles the top frame's next entry: a field item is gathered and loading continues;
    /// an entry naming another file asks for that file to be resolved. A frame with no
    /// entries left is finished: its schema must be valid, and is then either the result
    /// (for the outermost file) or spliced into the frame below, at the end of what that
    /// frame has gathered so far.
    pub fn resume(&mut self) -> (step: LoadStep)
        requires
            old(self).awaits_path(),
            old(self).frames@.len() > 0,
        ensures
            ({
                let fv = frames_view(old(self).frames@);
                let top = fv.last();
                let k = fv.len() - 1;
                if top.pending.len() > 0 {
                    &&& final(self).opened == old(self).opened
                    &&& final(self).root_endianness == old(self).root_endianness
                    &&& frames_view(final(self).frames@) == fv.update(k, frame_after_entry(top))
                    &&& match top.pending[0] {
                        RawFieldItem::FieldItem(_) => step is Continue,
                        RawFieldItem::Include { path } => step matches LoadStep::Resolve { from, path: p }
                            && from@ == top.path && p@ == path@,
                    }
                } else if exists|s: Schema| #[trigger] schema_of_frame(s, top) && schema_is_valid(s) {
                    &&& final(self).opened@ == old(self).opened@.drop_last()
                    &&& final(self).root_endianness == old(self).root_endianness
                    &&& fv.len() == 1 ==> (step matches LoadStep::Done(Ok(s)) && schema_of_frame(s, top) && schema_is_valid(s))
                        && final(self).frames@.len() == 0
                    &&& fv.len() > 1 ==> step is Continue
                        && frames_view(final(self).frames@) == fv.drop_last().update(k - 1, frame_after_child(fv[k - 1], top))
                } else {
                    step matches LoadStep::Done(Err(e)) && exists|s: Schema| #[trigger] schema_of_frame(s, top)
                        && (e matches SchemaError::Validation { message, path: None, location: None }
                        && schema_violation(s) == Some(message@))
                }
            }),
            final(self).wf(),
            final(self).root_endianness == old(self).root_endianness,
            step is Continue ==> final(self).awaits_path() && final(self).frames@.len() > 0
                && work_left(frames_view(final(self).frames@)) < work_left(frames_view(old(self).frames@)),
            step is Resolve ==> final(self).awaits_path() && final(self).frames@.len() > 0,
    {
        let ghost fv = frames_view(self.frames@);
        let mut top = self.frames.pop().unwrap();
        let ghost tv = top@;
        assert(tv == fv.last());
        proof { lemma_work_left_update(fv, tv); }
        if top.pending.len() > 0 {
            let item = top.pending.pop().unwrap();
            assert(top.pending@.reverse() =~= tv.pending.drop_first());
            match item {
                RawFieldItem::FieldItem(f) => {
                    top.fields.push(f);
                    self.frames.push(top);
                    proof {
                        lemma_work_left_update(fv, frame_after_entry(tv));
                        assert(frames_view(self.frames@) =~= fv.update(fv.len() - 1, frame_after_entry(tv)));
                    }
                    LoadStep::Continue
                },
                RawFieldItem::Include { path } => {
                    let from = copy_string(&top.path);
                    self.frames.push(top);
                    proof {
                        lemma_work_left_update(fv, frame_after_entry(tv));
                        assert(frames_view(self.frames@) =~= fv.update(fv.len() - 1, frame_after_entry(tv)));
                    }
                    LoadStep::Resolve { from, path }
                },
            }
        } else {
            let LoadFrame { path, schema_name, schema_version, endianness, structures, fields, pending } = top;
            let schema = Schema { schema_name, schema_version, endianness, structures, fields };
            assert(schema_of_frame(schema, tv));
            match validate_schema(&schema) {
                Ok(()) => {},
                Err(e) => {
                    assert forall|s: Schema| #[trigger] schema_of_frame(s, tv) implies !schema_is_valid(s) by {
                        lemma_violation_by_views(s, schema);
                    }
                    return LoadStep::Done(Err(e));
                },
            }
            self.opened.pop();
            if self.frames.len() == 0 {
                return LoadStep::Done(Ok(schema));
            }
            let Schema { structures: mut child_structures, fields: mut child_fields, .. } = schema;
            let mut parent = self.frames.pop().unwrap();
            let ghost pv = parent@;
            let ghost rest = self.frames@;
            parent.structures.append(&mut child_structures);
            parent.fields.append(&mut child_fields);
            self.frames.push(parent);
            proof {
                assert(pv == fv[fv.len() - 2]);
                assert(frames_view(self.frames@) =~= fv.drop_last().update(fv.len() - 2, frame_after_child(pv, tv)));
                lemma_work_left_update(fv.drop_last(), frame_after_child(pv, tv));
            }
            LoadStep::Continue
        }
    }

    /// Resumes until the loader needs the caller or is done: from the frames it stops on
    /// (see `settle_point`), it asks for the next named file to be resolved, or returns the
    /// outermost file's schema, or the first rule the finished top file's schema breaks.
    pub fn run(&mut self) -> (step: LoadStep)
        requires
            old(self).awaits_path(),
            old(self).frames@.len() > 0,
        ensures
            ran(*old(self), *final(self), step),

    {
        let ghost start = frames_view(self.frames@);
        let ghost opened0 = self.opened@;
        proof { lemma_settle_point_nonempty(start); }
        loop
            invariant
                self.awaits_path(),
                self.frames@.len() > 0,
                settle_point(frames_view(self.frames@)) == settle_point(start),
                self.opened@ == opened0.take(self.frames@.len() as int),
                self.frames@.len() <= opened0.len(),
                self.root_endianness == old(self).root_endianness,
                start == frames_view(old(self).frames@),
                opened0 == old(self).opened@,
                old(self).awaits_path(),
            decreases work_left(frames_view(self.frames@)),
        {
            let ghost fv = frames_view(self.frames@);
            let ghost before = self.opened@;
            let step = self.resume();
            proof {
                let k = fv.len() - 1;
                let top = fv.last();
                if top.pending.len() > 0 {
                    assert(self.opened@ == before);
                } else if frame_valid(top) {
                    assert(self.opened@ == before.drop_last());
                    assert(opened0.take(fv.len() as int).drop_last() =~= opened0.take(fv.len() - 1));
                }
            }
            match step {
                LoadStep::Continue => {},
                _ => {
                    proof {
                        let top = fv.last();
                        if top.pending.len() > 0 {
                            assert(!(top.pending[0] is FieldItem));
                        }
                        assert(settle_point(fv) == fv);
                    }
                    return step;
                },
            }
        }
    }
}


/// The field item a field-list entry stands for, when it is one.
pub open spec fn entry_item(r: RawFieldItem) -> FieldItem {
    match r {
        RawFieldItem::FieldItem(f) => f,
        RawFieldItem::Include { .. } => arbitrary(),
    }
}

/// `f` with all of its entries, none naming another file, gathered.
pub open spec fn gathered(f: FrameView) -> FrameView {
    FrameView { fields: f.fields + f.pending.map_values(|r: RawFieldItem| entry_item(r)), pending: Seq::empty(), ..f }
}

proof fn lemma_settle_plain(f: FrameView)
    requires
        forall|i: int| 0 <= i < f.pending.len() ==> (#[trigger] f.pending[i]) is FieldItem,
    ensures
        settle_point(seq![f]) == seq![gathered(f)],
    decreases f.pending.len(),
{
    let fv = seq![f];
    assert(fv.last() == f);
    if f.pending.len() > 0 {
        let f2 = frame_after_entry(f);
        assert(fv.update(0, f2) =~= seq![f2]);
        assert forall|i: int| 0 <= i < f2.pending.len() implies (#[trigger] f2.pending[i]) is FieldItem by {
            assert(f2.pending[i] == f.pending[i + 1]);
        }
        lemma_settle_plain(f2);
        assert(f2.fields + f2.pending.map_values(|r: RawFieldItem| entry_item(r))
            =~= f.fields + f.pending.map_values(|r: RawFieldItem| entry_item(r)));
        assert(gathered(f2) == gathered(f));
    } else {
        assert(f.fields + f.pending.map_values(|r: RawFieldItem| entry_item(r)) =~= f.fields);
        assert(f.pending =~= Seq::<RawFieldItem>::empty());
        assert(gathered(f) == f);
    }
}

/// Loading a file whose field list names no other file agrees with reading its text alone:
/// the loader gathers every entry of the file's only frame, each schema that frame stands for
/// is one the text decodes to, and such a schema breaks the same first rule as any schema the
/// text decodes to (so both are valid, or both fail with the same message).
pub proof fn law_file_without_includes_loads_as_its_text(n: YamlNode, path: Seq<char>, f: FrameView)
    requires
        fresh_frame(n, path, f),
        !document_names_other_file(n),
    ensures
        settle_point(seq![f]).len() == 1,
        settle_point(seq![f])[0].pending.len() == 0,
        forall|s: Schema| #[trigger] schema_of_frame(s, settle_point(seq![f])[0]) ==> schema_decodes(n, s),
        forall|s1: Schema, s2: Schema| #![trigger schema_of_frame(s1, settle_point(seq![f])[0]), schema_decodes(n, s2)]
            schema_of_frame(s1, settle_point(seq![f])[0]) && schema_decodes(n, s2)
            ==> schema_violation(s1) == schema_violation(s2),
{
    let items = document_list(n, "fields"@);
    assert forall|i: int| 0 <= i < f.pending.len() implies (#[trigger] f.pending[i]) is FieldItem by {
        assert(spec_raw_item(items[i]) == Ok::<RawFieldItem, Option<Seq<char>>>(f.pending[i]));
        if f.pending[i] is Include {
            assert(spec_raw_item(items[i]) matches Ok(RawFieldItem::Include { .. }));
        }
    }
    lemma_settle_plain(f);
    let g = gathered(f);
    assert(settle_point(seq![f])[0] == g);
    assert forall|i: int| 0 <= i < items.len() implies spec_raw_item(#[trigger] items[i])
        == Ok::<RawFieldItem, Option<Seq<char>>>(RawFieldItem::FieldItem(g.fields[i])) by {
        assert(spec_raw_item(items[i]) == Ok::<RawFieldItem, Option<Seq<char>>>(f.pending[i]));
        assert(g.fields[i] == entry_item(f.pending[i]));
    }
    assert forall|s: Schema| #[trigger] schema_of_frame(s, g) implies schema_decodes(n, s) by {}
    assert forall|s1: Schema, s2: Schema| schema_of_frame(s1, g) && schema_decodes(n, s2)
        implies schema_violation(s1) == schema_violation(s2) by {
        let ds = document_list(n, "structures"@);
        assert forall|i: int| 0 <= i < s1.structures@.len() implies
            (#[trigger] s1.structures@[i]).name@ == s2.structures@[i].name@ && s1.structures@[i].fields@ == s2.structures@[i].fields@ by {
            assert(structure_decodes(ds[i], s1.structures@[i]));
            assert(structure_decodes(ds[i], s2.structures@[i]));
            let a = s1.structures@[i];
            let b = s2.structures@[i];
            if let YamlNode::Mapping(entries) = ds[i] {
                if let Some(YamlNode::Sequence(its)) = map_lookup(entries@, "fields"@) {
                    assert forall|j: int| 0 <= j < a.fields@.len() implies a.fields@[j] == b.fields@[j] by {
                        assert(spec_dec_field_def(its@[j]) == Some(a.fields@[j]));
                        assert(spec_dec_field_def(its@[j]) == Some(b.fields@[j]));
                    }
                    assert(a.fields@ =~= b.fields@);
                }
            }
        }
        assert forall|i: int| 0 <= i < s1.fields@.len() implies s1.fields@[i] == s2.fields@[i] by {
            assert(spec_raw_item(items[i]) == Ok::<RawFieldItem, Option<Seq<char>>>(RawFieldItem::FieldItem(s2.fields@[i])));
        }
        assert(s1.fields@ =~= s2.fields@);
        lemma_violation_by_structure_views(s1, s2);
    }
}


/// Whether `new` and `step` are what entering the file resolved to `normalized` gives from
/// `old` (see `enter`).
pub open spec fn entered(old: SchemaFileLoader, new: SchemaFileLoader, normalized: String, step: LoadStep) -> bool {
    match cycle_text(path_texts(old.opened@), normalized@) {
        Some(c) => (step matches LoadStep::Done(Err(SchemaError::IncludeCycle { cycle })) && cycle@ == c)
            && new == old,
        None => (step matches LoadStep::ReadFile { path } && path@ == normalized@)
            && new.opened@ == old.opened@.push(normalized)
            && new.frames == old.frames
            && new.root_endianness == old.root_endianness,
    }
}

/// Whether `new` and `step` are what handing `text` to `old` gives (see `file_read`).
pub open spec fn text_read(old: SchemaFileLoader, new: SchemaFileLoader, text: Result<String, String>, step: LoadStep) -> bool {
    let path = old.opened@.last()@;
    match text {
        Err(m) => step matches LoadStep::Done(Err(SchemaError::Io { path: p, source }))
            && p@ == path && source@ == m@,
        Ok(t) => if !document_loads(t@) {
            step matches LoadStep::Done(Err(e)) && document_failure(t@, e)
        } else {
            let n = yaml_document(t@)->Ok_0;
            let declared = opt_entry(document_entries(n), "endianness"@, |v: YamlNode| spec_dec_endianness(v))->Some_0;
            let root = if old.frames@.len() == 0 { declared } else { old.root_endianness };
            match (root, declared) {
                (Some(r), Some(d)) if r != d =>
                    step matches LoadStep::Done(Err(SchemaError::Validation { message, path: None, location: None }))
                    && message@ == endianness_mismatch_text(path, d, r),
                _ => step is Continue
                    && new.opened == old.opened
                    && new.root_endianness == root
                    && frames_view(new.frames@).drop_last() == frames_view(old.frames@)
                    && new.frames@.len() == old.frames@.len() + 1
                    && fresh_frame(n, path, new.frames@.last()@),
            }
        },
    }
}

/// Whether `new` and `step` are what running `old` gives (see `run`).
pub open spec fn ran(old: SchemaFileLoader, new: SchemaFileLoader, step: LoadStep) -> bool {
    &&& new.wf()
    &&& !(step is Continue)
    &&& step is Resolve ==> new.awaits_path() && new.frames@.len() > 0
    &&& step matches LoadStep::Done(Ok(s)) ==> schema_is_valid(s)
    &&& step matches LoadStep::Done(Err(e)) ==> e is Validation
    &&& new.root_endianness == old.root_endianness
    &&& ({
        let p = settle_point(frames_view(old.frames@));
        let top = p.last();
        let k = p.len() - 1;
        &&& p.len() > 0
        &&& if top.pending.len() > 0 {
            &&& top.pending[0] matches RawFieldItem::Include { path }
                && step matches LoadStep::Resolve { from, path: q } && from@ == top.path && q@ == path@
            &&& frames_view(new.frames@) == p.update(k, frame_after_entry(top))
            &&& new.opened@ == old.opened@.take(p.len() as int)
        } else if frame_valid(top) {
            &&& p.len() == 1
            &&& step matches LoadStep::Done(Ok(s)) && schema_of_frame(s, top) && schema_is_valid(s)
            &&& new.frames@.len() == 0
            &&& new.opened@.len() == 0
        } else {
            step matches LoadStep::Done(Err(e)) && exists|s: Schema| #[trigger] schema_of_frame(s, top)
                && (e matches SchemaError::Validation { message, path: None, location: None }
                && schema_violation(s) == Some(message@))
        }
    })
}



/// Whether two load results agree: both schemas that `same_schema` finds alike, or both the
/// same error.
pub open spec fn same_outcome(a: Result<Schema, SchemaError>, b: Result<Schema, SchemaError>) -> bool {
    match (a, b) {
        (Ok(x), Ok(y)) => same_schema(x, y),
        (Err(e), Err(f)) => same_error(e, f),
        _ => false,
    }
}

/// Loading a schema file whose field list names no other file, through the loader's steps
/// from a fresh loader (enter the file, hand in its text, run), ends with the result that
/// loading its text with `parse_schema_str` gives: the same schema, or the same error.
pub proof fn law_plain_file_loads_as_its_text(
    l0: SchemaFileLoader, l1: SchemaFileLoader, l2: SchemaFileLoader, l3: SchemaFileLoader,
    path: String, text: String, s1: LoadStep, s2: LoadStep, s3: LoadStep, parsed: Result<Schema, SchemaError>,
)
    requires
        l0.opened@.len() == 0,
        l0.frames@.len() == 0,
        entered(l0, l1, path, s1),
        text_read(l1, l2, Ok(text), s2),
        s2 is Continue ==> ran(l2, l3, s3),
        text_parsed(text@, parsed),
        document_loads(text@) ==> !document_names_other_file(yaml_document(text@)->Ok_0),
    ensures
        s1 matches LoadStep::ReadFile { path: p } && p@ == path@,
        (if s2 is Continue { s3 } else { s2 }) matches LoadStep::Done(loaded) && same_outcome(loaded, parsed),
{
    assert(path_texts(l0.opened@) =~= Seq::<Seq<char>>::empty());
    assert(first_position(path_texts(l0.opened@), path@) is None);
    assert(l1.opened@ =~= seq![path]);
    assert(l1.opened@.last()@ == path@);
    let t = text@;
    if !document_loads(t) {
        let e = s2->Done_0->Err_0;
        let f = parsed->Err_0;
        lemma_document_failure_unique(t, e, f);
    } else {
        let n = yaml_document(t)->Ok_0;
        assert(l1.frames@.len() == 0);
        assert(s2 is Continue);
        let f = l2.frames@.last()@;
        assert(frames_view(l2.frames@) =~= seq![f]);
        law_file_without_includes_loads_as_its_text(n, path@, f);
        let p = settle_point(seq![f]);
        let g = p[0];
        assert(p.last() == g);
        if frame_valid(g) {
            let s = s3->Done_0->Ok_0;
            assert(schema_of_frame(s, g));
            assert(schema_decodes(n, s));
            if parsed is Err {
                let s2x = choose|x: Schema| #[trigger] schema_decodes(n, x)
                    && (parsed->Err_0 matches SchemaError::Validation { message, path: None, location: None }
                    && schema_violation(x) == Some(message@));
                assert(schema_violation(s) == schema_violation(s2x));
                assert(false);
            }
            lemma_decoded_schemas_agree(n, s, parsed->Ok_0);
        } else {
            let s = choose|x: Schema| #[trigger] schema_of_frame(x, g)
                && (s3->Done_0->Err_0 matches SchemaError::Validation { message, path: None, location: None }
                && schema_violation(x) == Some(message@));
            if parsed is Ok {
                let y = parsed->Ok_0;
                assert(schema_violation(s) == schema_violation(y));
                assert(false);
            }
            let s2x = choose|x: Schema| #[trigger] schema_decodes(n, x)
                && (parsed->Err_0 matches SchemaError::Validation { message, path: None, location: None }
                && schema_violation(x) == Some(message@));
            assert(schema_violation(s) == schema_violation(s2x));
        }
    }
}


/// The byte order every file is checked against is the root file's own declaration.
/// Reading the root file records the byte order it declares, or none; reading a file it
/// names leaves that record as it is; and where the root declares none, no file it names
/// is refused for its byte order.
pub proof fn law_byte_order_checked_against_root_declaration(
    old: SchemaFileLoader, new: SchemaFileLoader, text: String, step: LoadStep,
)
    requires
        text_read(old, new, Ok(text), step),
    ensures
        old.frames@.len() == 0 && step is Continue ==> new.root_endianness == new.frames@.last()@.endianness,
        old.frames@.len() > 0 && step is Continue ==> new.root_endianness == old.root_endianness,
        old.frames@.len() > 0 && old.root_endianness is None && document_loads(text@) ==> step is Continue,
{
    if document_loads(text@) {
        let n = yaml_document(text@)->Ok_0;
        if step is Continue {
            let f = new.frames@.last()@;
            assert(header_decodes(n, f.schema_name, f.schema_version, f.endianness, f.structures));
        }
    }
}

} // verus!
