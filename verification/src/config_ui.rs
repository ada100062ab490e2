//! The configuration editor's model: the settings of a configuration
//! document, discovered recursively, each with the control that edits it.
use vstd::prelude::*;

verus! {

/// The control that edits a configuration value.
#[derive(Debug, Clone, Copy, PartialEq, Eq, Structural)]
pub enum ControlKind {
    Checkbox,
    IntegerSpinner,
    FloatSpinner,
    ReadOnly,
}

/// The precision after one press of the up (`direction > 0`) or down
/// button: the value moved by `direction`, saturating at the integer's
/// bounds, when it stays positive and actually changes.
pub open spec fn precision_step_spec(value: i64, direction: i8) -> Option<i64> {
    let moved = value + direction;
    let next = if moved > i64::MAX {
        i64::MAX as int
    } else if moved < i64::MIN {
        i64::MIN as int
    } else {
        moved
    };
    if next > 0 && next != value {
        Some(next as i64)
    } else {
        None
    }
}

/// Steps the precision level, never down to zero.
pub fn precision_step(value: i64, direction: i8) -> (next: Option<i64>)
    ensures
        next == precision_step_spec(value, direction),
{
    let next = match value.checked_add(direction as i64) {
        Some(next) => next,
        None => if direction > 0 {
            i64::MAX
        } else {
            i64::MIN
        },
    };
    if next > 0 && next != value {
        Some(next)
    } else {
        None
    }
}

/// A setting of a configuration document. Floating-point settings are held
/// as the bit patterns of their `f64` values; strings keep their text, and
/// any other value (a list, a date) keeps its text as the document writes it.
#[derive(Debug, PartialEq, Eq)]
pub enum ConfigScalar {
    Boolean(bool),
    Integer(i64),
    Float(u64),
    Text(String),
    Other(String),
}

/// A configuration document: a setting, or a table of named values.
#[derive(Debug, PartialEq, Eq)]
pub enum ConfigValue {
    Scalar(ConfigScalar),
    Table(Vec<ConfigEntry>),
}

/// One named value of a table.
#[derive(Debug, PartialEq, Eq)]
pub struct ConfigEntry {
    pub name: String,
    pub value: ConfigValue,
}

/// A setting found in a document: its dotted path, its control and its value.
#[derive(Debug, PartialEq, Eq)]
pub struct ConfigField {
    pub path: String,
    pub kind: ControlKind,
    pub value: ConfigScalar,
}

/// What the editor knows of a field.
pub struct FieldView {
    pub path: Seq<char>,
    pub kind: ControlKind,
    pub value: ConfigScalar,
}

impl View for ConfigField {
    type V = FieldView;

    open spec fn view(&self) -> FieldView {
        FieldView { path: self.path@, kind: self.kind, value: self.value }
    }
}

/// Booleans get checkboxes, integers and floating-point numbers spinners,
/// anything else is shown read-only.
pub open spec fn control_kind_of(value: ConfigScalar) -> ControlKind {
    match value {
        ConfigScalar::Boolean(_) => ControlKind::Checkbox,
        ConfigScalar::Integer(_) => ControlKind::IntegerSpinner,
        ConfigScalar::Float(_) => ControlKind::FloatSpinner,
        _ => ControlKind::ReadOnly,
    }
}

/// The path of `name` inside the table at `prefix`.
pub open spec fn joined(prefix: Seq<char>, name: Seq<char>) -> Seq<char> {
    if prefix.len() == 0 {
        name
    } else {
        prefix + "."@ + name
    }
}

/// The settings of the entries of a table at `prefix`, in the table's
/// order, a nested table's settings standing where the table stands.
pub open spec fn entry_fields(entries: Seq<ConfigEntry>, prefix: Seq<char>) -> Seq<FieldView>
    decreases entries,
{
    if entries.len() == 0 {
        Seq::empty()
    } else {
        let last = entries.last();
        entry_fields(entries.drop_last(), prefix) + match last.value {
            ConfigValue::Scalar(value) => seq![
                FieldView {
                    path: joined(prefix, last.name@),
                    kind: control_kind_of(value),
                    value,
                },
            ],
            ConfigValue::Table(children) => entry_fields(children@, joined(prefix, last.name@)),
        }
    }
}

/// The settings of a document: none for a lone setting, the settings of its
/// entries for a table.
pub open spec fn document_fields(document: ConfigValue) -> Seq<FieldView> {
    match document {
        ConfigValue::Scalar(_) => Seq::empty(),
        ConfigValue::Table(entries) => entry_fields(entries@, Seq::empty()),
    }
}

/// The views of a list of fields.
pub open spec fn field_views(fields: Seq<ConfigField>) -> Seq<FieldView> {
    fields.map_values(|field: ConfigField| field@)
}

impl ConfigScalar {
    /// An equal setting.
    pub fn duplicate(&self) -> (copy: Self)
        ensures
            copy == *self,
    {
        match self {
            ConfigScalar::Boolean(value) => ConfigScalar::Boolean(*value),
            ConfigScalar::Integer(value) => ConfigScalar::Integer(*value),
            ConfigScalar::Float(bits) => ConfigScalar::Float(*bits),
            ConfigScalar::Text(text) => ConfigScalar::Text(text.clone()),
            ConfigScalar::Other(text) => ConfigScalar::Other(text.clone()),
        }
    }
}

/// The control that edits `value`.
pub fn control_kind(value: &ConfigScalar) -> (kind: ControlKind)
    ensures
        kind == control_kind_of(*value),
{
    match value {
        ConfigScalar::Boolean(_) => ControlKind::Checkbox,
        ConfigScalar::Integer(_) => ControlKind::IntegerSpinner,
        ConfigScalar::Float(_) => ControlKind::FloatSpinner,
        _ => ControlKind::ReadOnly,
    }
}

/// The path of `name` inside the table at `prefix`.
fn join_path(prefix: &String, name: &String) -> (path: String)
    ensures
        path@ == joined(prefix@, name@),
{
    if prefix.as_str().is_empty() {
        name.clone()
    } else {
        prefix.clone().concat(".").concat(name.as_str())
    }
}

/// Appends the settings of the entries of the table at `prefix` to `fields`.
fn collect_fields(entries: &Vec<ConfigEntry>, prefix: &String, fields: &mut Vec<ConfigField>)
    ensures
        field_views(final(fields)@) == field_views(old(fields)@) + entry_fields(entries@, prefix@),
    decreases entries@,
{
    let ghost start = field_views(fields@);
    let mut index: usize = 0;
    while index < entries.len()
        invariant
            index <= entries@.len(),
            field_views(fields@) == start + entry_fields(entries@.take(index as int), prefix@),
        decreases entries@.len() - index,
    {
        let entry = &entries[index];
        let path = join_path(prefix, &entry.name);
        let ghost before = field_views(fields@);
        proof {
            assert(entries@.take(index + 1).drop_last() =~= entries@.take(index as int));
            assert(entries@.take(index + 1).last() == entries@[index as int]);
        }
        match &entry.value {
            ConfigValue::Scalar(value) => {
                let field = ConfigField { path, kind: control_kind(value), value: value.duplicate() };
                fields.push(field);
                proof {
                    assert(field_views(fields@) =~= before.push(field@));
                }
            },
            ConfigValue::Table(children) => {
                proof {
                    assert(decreases_to!(entries@ => entries@[index as int]));
                }
                collect_fields(children, &path, fields);
            },
        }
        index = index + 1;
    }
    proof {
        assert(entries@.take(entries@.len() as int) =~= entries@);
    }
}

/// The configuration editor's state: the document and its settings.
pub struct ConfigUi {
    document: ConfigValue,
    fields: Vec<ConfigField>,
}

impl ConfigUi {
    pub closed spec fn document_spec(&self) -> ConfigValue {
        self.document
    }

    pub closed spec fn fields_spec(&self) -> Seq<FieldView> {
        field_views(self.fields@)
    }

    /// The editor of `document`, with every setting of the document
    /// discovered recursively.
    pub fn from_document(document: ConfigValue) -> (ui: Self)
        ensures
            ui.document_spec() == document,
            ui.fields_spec() == document_fields(document),
    {
        let mut fields: Vec<ConfigField> = Vec::new();
        proof {
            assert(field_views(fields@) =~= Seq::<FieldView>::empty());
        }
        match &document {
            ConfigValue::Scalar(_) => {},
            ConfigValue::Table(entries) => {
                let prefix = String::new();
                collect_fields(entries, &prefix, &mut fields);
                proof {
                    assert(prefix@ =~= Seq::<char>::empty());
                    assert(field_views(fields@) =~= entry_fields(entries@, Seq::<char>::empty()));
                }
            },
        }
        ConfigUi { document, fields }
    }

    pub fn fields(&self) -> (fields: &[ConfigField])
        ensures
            field_views(fields@) == self.fields_spec(),
    {
        self.fields.as_slice()
    }

    pub fn document(&self) -> (document: &ConfigValue)
        ensures
            *document == self.document_spec(),
    {
        &self.document
    }
}

/// What a document holds: a setting, or a table of named values.
pub enum DocumentView {
    Setting(ConfigScalar),
    Table(Seq<(Seq<char>, DocumentView)>),
}

/// The view of a table's entries, in order.
pub open spec fn entries_view(entries: Seq<ConfigEntry>) -> Seq<(Seq<char>, DocumentView)>
    decreases entries,
{
    if entries.len() == 0 {
        Seq::empty()
    } else {
        let last = entries.last();
        entries_view(entries.drop_last()).push(
            (
                last.name@,
                match last.value {
                    ConfigValue::Scalar(value) => DocumentView::Setting(value),
                    ConfigValue::Table(children) => DocumentView::Table(entries_view(children@)),
                },
            ),
        )
    }
}

/// The view of a document.
pub open spec fn document_view(document: ConfigValue) -> DocumentView {
    match document {
        ConfigValue::Scalar(value) => DocumentView::Setting(value),
        ConfigValue::Table(entries) => DocumentView::Table(entries_view(entries@)),
    }
}

/// The entries of a table at `prefix` after the value at `path` becomes
/// `value`: the entry whose path is `path` takes the setting, whatever it
/// held; the tables on the way to it are searched in turn.
pub open spec fn replaced(
    entries: Seq<(Seq<char>, DocumentView)>,
    prefix: Seq<char>,
    path: Seq<char>,
    value: ConfigScalar,
) -> Seq<(Seq<char>, DocumentView)>
    decreases entries,
{
    if entries.len() == 0 {
        Seq::empty()
    } else {
        let (name, child) = entries.last();
        let child_path = joined(prefix, name);
        replaced(entries.drop_last(), prefix, path, value).push(
            if child_path == path {
                (name, DocumentView::Setting(value))
            } else {
                match child {
                    DocumentView::Table(grandchildren) => (
                        name,
                        DocumentView::Table(replaced(grandchildren, child_path, path, value)),
                    ),
                    _ => (name, child),
                }
            },
        )
    }
}

/// Whether some value of the table at `prefix`, or of a table inside it,
/// has the path `path`.
pub open spec fn holds_path(
    entries: Seq<(Seq<char>, DocumentView)>,
    prefix: Seq<char>,
    path: Seq<char>,
) -> bool
    decreases entries,
{
    if entries.len() == 0 {
        false
    } else {
        let (name, child) = entries.last();
        let child_path = joined(prefix, name);
        holds_path(entries.drop_last(), prefix, path) || child_path == path || match child {
            DocumentView::Table(grandchildren) => holds_path(grandchildren, child_path, path),
            _ => false,
        }
    }
}

/// Sets the value at `path` among the entries of the table at `prefix`, and
/// tells whether some value had that path.
fn replace_setting(
    entries: &mut Vec<ConfigEntry>,
    prefix: &String,
    path: &String,
    value: &ConfigScalar,
) -> (found: bool)
    ensures
        entries_view(final(entries)@) == replaced(
            entries_view(old(entries)@),
            prefix@,
            path@,
            *value,
        ),
        found == holds_path(entries_view(old(entries)@), prefix@, path@),
    decreases *old(entries),
{
    let ghost initial = entries@;
    let mut found = false;
    let mut index: usize = 0;
    proof {
        assert(entries@.take(0) =~= Seq::<ConfigEntry>::empty());
        assert(initial.take(0) =~= Seq::<ConfigEntry>::empty());
        assert(entries@.skip(0) =~= initial.skip(0));
    }
    while index < entries.len()
        invariant
            index <= entries@.len(),
            initial == old(entries)@,
            entries@.len() == initial.len(),
            entries@.skip(index as int) == initial.skip(index as int),
            entries_view(entries@.take(index as int)) == replaced(
                entries_view(initial.take(index as int)),
                prefix@,
                path@,
                *value,
            ),
            found == holds_path(entries_view(initial.take(index as int)), prefix@, path@),
        decreases entries@.len() - index,
    {
        let ghost before = entries@;
        proof {
            assert(before[index as int] == before.skip(index as int)[0]);
            assert(initial[index as int] == initial.skip(index as int)[0]);
        }
        let mut entry = entries.remove(index);
        let ghost old_entry = entry;
        let child_path = join_path(prefix, &entry.name);
        if child_path == *path {
            entry.value = ConfigValue::Scalar(value.duplicate());
            found = true;
        } else {
            match &mut entry.value {
                ConfigValue::Table(children) => {
                    proof {
                        let i = index as int;
                        assert(old_entry == initial[i]);
                        assert(old_entry.value == ConfigValue::Table(*children));
                        assert(decreases_to!(initial => initial[i]));
                        assert(decreases_to!(initial[i] => initial[i].value));
                        assert(decreases_to!(ConfigValue::Table(*children) => *children));
                        assert(decreases_to!(*children => (*children)@));
                        assert(decreases_to!(initial => (*children)@));
                        assert(initial == old(entries)@);
                        assert(decreases_to!(*old(entries) => old(entries)@));
                        assert(decreases_to!(*old(entries) => *children));
                    }
                    if replace_setting(children, &child_path, path, value) {
                        found = true;
                    }
                },
                _ => {},
            }
        }
        entries.insert(index, entry);
        proof {
            let i = index as int;
            assert(entries@ =~= before.update(i, entry));
            assert(entries@.take(i + 1).drop_last() =~= before.take(i));
            assert(entries@.take(i + 1).last() == entry);
            assert(initial.take(i + 1).drop_last() =~= initial.take(i));
            assert(initial.take(i + 1).last() == old_entry);
            let prior = entries_view(initial.take(i));
            let pushed = entries_view(initial.take(i + 1));
            assert(pushed.drop_last() =~= prior);
            assert(entries@.skip(i + 1) =~= initial.skip(i + 1)) by {
                assert forall|j: int| 0 <= j < entries@.len() - (i + 1) implies #[trigger] entries@.skip(i + 1)[j]
                    == initial.skip(i + 1)[j] by {
                    assert(before.skip(i)[j + 1] == initial.skip(i)[j + 1]);
                }
            }
        }
        index = index + 1;
    }
    proof {
        assert(entries@.take(entries@.len() as int) =~= entries@);
        assert(initial.take(initial.len() as int) =~= initial);
    }
    found
}

/// A table that holds nothing at `path` is left as it is by a replacement
/// at `path`.
proof fn lemma_replaced_without_path(
    entries: Seq<(Seq<char>, DocumentView)>,
    prefix: Seq<char>,
    path: Seq<char>,
    value: ConfigScalar,
)
    requires
        !holds_path(entries, prefix, path),
    ensures
        replaced(entries, prefix, path, value) == entries,
    decreases entries,
{
    if entries.len() > 0 {
        let (name, child) = entries.last();
        lemma_replaced_without_path(entries.drop_last(), prefix, path, value);
        match child {
            DocumentView::Table(grandchildren) => {
                lemma_replaced_without_path(grandchildren, joined(prefix, name), path, value);
            },
            _ => {},
        }
        assert(replaced(entries, prefix, path, value) =~= entries);
    }
}

/// The index of the first field whose path is `path`.
pub open spec fn first_field(fields: Seq<FieldView>, path: Seq<char>) -> Option<int>
    decreases fields.len(),
{
    if fields.len() == 0 {
        None
    } else if fields[0].path == path {
        Some(0)
    } else {
        match first_field(fields.drop_first(), path) {
            Some(i) => Some(i + 1),
            None => None,
        }
    }
}

/// The first field with a path is the one before which no field has it.
proof fn lemma_first_field(fields: Seq<FieldView>, path: Seq<char>, index: int)
    requires
        0 <= index <= fields.len(),
        forall|j: int| 0 <= j < index ==> #[trigger] fields[j].path != path,
        index < fields.len() ==> fields[index].path == path,
    ensures
        first_field(fields, path) == if index < fields.len() {
            Some(index)
        } else {
            None::<int>
        },
    decreases index,
{
    if index > 0 {
        let rest = fields.drop_first();
        assert forall|j: int| 0 <= j < index - 1 implies #[trigger] rest[j].path != path by {
            assert(rest[j] == fields[j + 1]);
        }
        if index < fields.len() {
            assert(rest[index - 1] == fields[index]);
        }
        lemma_first_field(rest, path, index - 1);
    }
}

/// The only setting with a rule of its own: the precision level stays positive.
pub open spec fn valid_setting(path: Seq<char>, value: ConfigScalar) -> bool {
    path != "renderer.precision_level"@ || (value matches ConfigScalar::Integer(level) && level > 0)
}

/// Whether `value` may be given to the setting at `path`.
fn is_valid_value(path: &String, value: &ConfigScalar) -> (valid: bool)
    ensures
        valid == valid_setting(path@, *value),
{
    let precision = String::from_str("renderer.precision_level");
    if !(*path == precision) {
        return true;
    }
    match value {
        ConfigScalar::Integer(level) => *level > 0,
        _ => false,
    }
}

/// An integer setting moved by `direction`, saturating at its bounds.
pub open spec fn stepped(value: i64, direction: i8) -> i64 {
    let moved = value + direction;
    if moved > i64::MAX {
        i64::MAX
    } else if moved < i64::MIN {
        i64::MIN
    } else {
        moved as i64
    }
}

/// What the editor holds: the document and the settings found in it.
pub struct ConfigUiView {
    pub document: DocumentView,
    pub fields: Seq<FieldView>,
}

/// The editor after the setting at `path` is given `value`, and whether a
/// setting took it. A value that breaks a setting's rule changes nothing; a
/// path the document does not hold changes nothing; otherwise the document
/// takes the value, and so does the first field with that path.
pub open spec fn set_outcome(ui: ConfigUiView, path: Seq<char>, value: ConfigScalar) -> (ConfigUiView, bool) {
    if !valid_setting(path, value) {
        (ui, false)
    } else {
        match ui.document {
            DocumentView::Table(entries) => if holds_path(entries, Seq::empty(), path) {
                let document = DocumentView::Table(replaced(entries, Seq::empty(), path, value));
                match first_field(ui.fields, path) {
                    Some(i) => (
                        ConfigUiView {
                            document,
                            fields: ui.fields.update(i, FieldView { value, ..ui.fields[i] }),
                        },
                        true,
                    ),
                    None => (ConfigUiView { document, fields: ui.fields }, false),
                }
            } else {
                (ui, false)
            },
            _ => (ui, false),
        }
    }
}

/// A precision level that is not positive is refused: the editor is left
/// as it was and reports no change.
pub proof fn lemma_non_positive_precision_is_refused(ui: ConfigUiView, level: i64)
    requires
        level <= 0,
    ensures
        set_outcome(ui, "renderer.precision_level"@, ConfigScalar::Integer(level)) == (ui, false),
{
}

/// The answer of a step: the edit was made or refused, or the setting is a
/// floating-point number, whose stepped value the caller computes and hands
/// to `set_value`.
#[derive(Debug, Clone, Copy, PartialEq, Eq, Structural)]
pub enum StepOutcome {
    Done(bool),
    Float(u64),
}

impl View for ConfigUi {
    type V = ConfigUiView;

    closed spec fn view(&self) -> ConfigUiView {
        ConfigUiView { document: document_view(self.document), fields: field_views(self.fields@) }
    }
}

impl ConfigUi {
    /// The index of the first field whose path is `path`.
    fn find_field(&self, path: &String) -> (index: Option<usize>)
        ensures
            match index {
                Some(i) => {
                    &&& first_field(self@.fields, path@) == Some(i as int)
                    &&& i < self.fields@.len()
                    &&& self@.fields[i as int].path == path@
                },
                None => first_field(self@.fields, path@) is None,
            },
    {
        let mut index: usize = 0;
        while index < self.fields.len()
            invariant
                index <= self.fields@.len(),
                forall|j: int| 0 <= j < index ==> #[trigger] self@.fields[j].path != path@,
            decreases self.fields@.len() - index,
        {
            if self.fields[index].path == *path {
                proof {
                    lemma_first_field(self@.fields, path@, index as int);
                }
                return Some(index);
            }
            index = index + 1;
        }
        proof {
            lemma_first_field(self@.fields, path@, index as int);
        }
        None
    }

    /// Gives the setting at `path` the value `value`; whether a setting took it.
    pub fn set_value(&mut self, path: &str, value: ConfigScalar) -> (changed: bool)
        ensures
            (final(self)@, changed) == set_outcome(old(self)@, path@, value),
    {
        let path = String::from_str(path);
        if !is_valid_value(&path, &value) {
            return false;
        }
        let found = match &mut self.document {
            ConfigValue::Table(entries) => {
                let prefix = String::new();
                proof {
                    assert(prefix@ =~= Seq::<char>::empty());
                }
                let found = replace_setting(entries, &prefix, &path, &value);
                proof {
                    if !found {
                        lemma_replaced_without_path(
                            entries_view(old(self).document->Table_0@),
                            Seq::empty(),
                            path@,
                            value,
                        );
                    }
                }
                found
            },
            ConfigValue::Scalar(_) => false,
        };
        if !found {
            return false;
        }
        match self.find_field(&path) {
            None => false,
            Some(index) => {
                let kind = self.fields[index].kind;
                let field = ConfigField { path, kind, value };
                let ghost before = self.fields@;
                proof {
                    assert(field@ == FieldView { value, ..field_views(before)[index as int] });
                }
                self.fields.set(index, field);
                proof {
                    assert(self.fields@ == before.update(index as int, field));
                    assert(field_views(self.fields@) =~= field_views(before).update(
                        index as int,
                        FieldView { value, ..field_views(before)[index as int] },
                    ));
                }
                true
            },
        }
    }

    /// Flips the boolean setting at `path`; whether it changed.
    pub fn toggle(&mut self, path: &str) -> (changed: bool)
        ensures
            match first_field(old(self)@.fields, path@) {
                Some(i) => match old(self)@.fields[i].value {
                    ConfigScalar::Boolean(flag) => (final(self)@, changed) == set_outcome(
                        old(self)@,
                        path@,
                        ConfigScalar::Boolean(!flag),
                    ),
                    _ => !changed && final(self)@ == old(self)@,
                },
                None => !changed && final(self)@ == old(self)@,
            },
    {
        let key = String::from_str(path);
        match self.find_field(&key) {
            None => false,
            Some(index) => match self.fields[index].value {
                ConfigScalar::Boolean(flag) => self.set_value(path, ConfigScalar::Boolean(!flag)),
                _ => false,
            },
        }
    }

    /// Moves the numeric setting at `path` by `direction`: an integer
    /// saturates at its bounds; a floating-point setting is handed back for
    /// the caller to step.
    pub fn step(&mut self, path: &str, direction: i8) -> (outcome: StepOutcome)
        ensures
            match first_field(old(self)@.fields, path@) {
                Some(i) => match old(self)@.fields[i].value {
                    ConfigScalar::Integer(value) => outcome matches StepOutcome::Done(changed) && (
                    final(self)@, changed) == set_outcome(
                        old(self)@,
                        path@,
                        ConfigScalar::Integer(stepped(value, direction)),
                    ),
                    ConfigScalar::Float(bits) => outcome == StepOutcome::Float(bits) && final(self)@
                        == old(self)@,
                    _ => outcome == StepOutcome::Done(false) && final(self)@ == old(self)@,
                },
                None => outcome == StepOutcome::Done(false) && final(self)@ == old(self)@,
            },
    {
        let key = String::from_str(path);
        match self.find_field(&key) {
            None => StepOutcome::Done(false),
            Some(index) => match self.fields[index].value {
                ConfigScalar::Integer(value) => {
                    let next = match value.checked_add(direction as i64) {
                        Some(next) => next,
                        None => if direction > 0 {
                            i64::MAX
                        } else {
                            i64::MIN
                        },
                    };
                    StepOutcome::Done(self.set_value(path, ConfigScalar::Integer(next)))
                },
                ConfigScalar::Float(bits) => StepOutcome::Float(bits),
                _ => StepOutcome::Done(false),
            },
        }
    }
}

} // verus!
