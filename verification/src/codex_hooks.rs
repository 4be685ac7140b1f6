//! Overlay hook entries in Codex's `config.toml`.
//!
//! The document is edited in place with `toml_edit`, so the user's own
//! formatting and comments stay. Every hook table we write carries
//! `overlay_managed = true`; only those are replaced or removed.
//!
//! The document is modelled as what its tables hold: keys mapped to items
//! (booleans, strings, other values, tables and arrays of tables). Key order,
//! comments and whether a table is written implicitly are formatting and
//! are not modelled.
use vstd::prelude::*;
use toml_edit::{ArrayOfTables, DocumentMut, Item, Table};

verus! {

broadcast use vstd::string::group_string_axioms;

#[verifier::external_type_specification]
#[verifier::external_body]
pub struct ExDocumentMut(DocumentMut);

#[verifier::external_type_specification]
#[verifier::external_body]
pub struct ExTable(Table);

#[verifier::external_type_specification]
#[verifier::external_body]
pub struct ExArrayOfTables(ArrayOfTables);

/// A TOML value as a mathematical object (only what the overlay reads).
pub ghost enum TomlValue {
    Bool(bool),
    Str(Seq<char>),
    Other,
}

/// A TOML item: an empty slot, a value, a table (its keys and items) or an
/// array of tables.
pub ghost enum TomlItem {
    NoItem,
    Value(TomlValue),
    Table(Map<Seq<char>, TomlItem>),
    Aot(Seq<Map<Seq<char>, TomlItem>>),
}

/// What the document's root table holds.
pub uninterp spec fn doc_root(doc: DocumentMut) -> Map<Seq<char>, TomlItem>;

/// What a table holds.
pub uninterp spec fn table_map(t: Table) -> Map<Seq<char>, TomlItem>;

/// The tables an array of tables holds, in order.
pub uninterp spec fn aot_tables(a: ArrayOfTables) -> Seq<Map<Seq<char>, TomlItem>>;

/// What a TOML text parses to (its root table); `None` when the text is not
/// valid TOML.
pub uninterp spec fn toml_root(text: Seq<char>) -> Option<Map<Seq<char>, TomlItem>>;

/// A table with no keys.
pub open spec fn empty_table() -> Map<Seq<char>, TomlItem> {
    Map::empty()
}

/// `Table::get`: the item under `key`, when there is one that is not empty.
pub open spec fn tget(m: Map<Seq<char>, TomlItem>, key: Seq<char>) -> Option<TomlItem> {
    if m.contains_key(key) && !(m[key] is NoItem) {
        Some(m[key])
    } else {
        None
    }
}

/// The array of tables at `table.key` of the root, if both are there.
pub open spec fn sub_aot(root: Map<Seq<char>, TomlItem>, table: Seq<char>, key: Seq<char>) -> Option<
    Seq<Map<Seq<char>, TomlItem>>,
> {
    match tget(root, table) {
        Some(TomlItem::Table(h)) => match tget(h, key) {
            Some(TomlItem::Aot(ts)) => Some(ts),
            _ => None,
        },
        _ => None,
    }
}

/// The boolean under `key`, if that item is a boolean.
pub open spec fn bool_field(m: Map<Seq<char>, TomlItem>, key: Seq<char>) -> Option<bool> {
    match tget(m, key) {
        Some(TomlItem::Value(TomlValue::Bool(b))) => Some(b),
        _ => None,
    }
}

/// The boolean under `key` (`false` when it is missing or not a boolean).
pub open spec fn bool_at(m: Map<Seq<char>, TomlItem>, key: Seq<char>) -> bool {
    match bool_field(m, key) {
        Some(b) => b,
        None => false,
    }
}

// ───────────────────────── document access ─────────────────────────

/// Parses a TOML text (`toml_edit`: `FromStr for DocumentMut`); `None` when
/// it is not valid TOML.
#[verifier::external_body]
fn parse_document(text: &str) -> (r: Option<DocumentMut>)
    ensures
        match r {
            Some(d) => toml_root(text@) == Some(doc_root(d)),
            None => toml_root(text@) is None,
        },
{
    text.parse::<DocumentMut>().ok()
}

/// A new empty document (`toml_edit`: `DocumentMut::new`).
#[verifier::external_body]
fn new_document() -> (r: DocumentMut)
    ensures
        doc_root(r) == empty_table(),
{
    DocumentMut::new()
}

/// Whether the root's `key` is a table (`toml_edit`: `Table::get`).
#[verifier::external_body]
fn root_is_table(doc: &DocumentMut, key: &str) -> (r: bool)
    ensures
        r == (tget(doc_root(*doc), key@) matches Some(TomlItem::Table(_))),
{
    matches!(doc.as_table().get(key), Some(Item::Table(_)))
}

/// Length of the array of tables at `table.key` (`toml_edit`: `Table::get`,
/// `ArrayOfTables::len`); `None` when there is none.
#[verifier::external_body]
fn sub_aot_len(doc: &DocumentMut, table: &str, key: &str) -> (r: Option<usize>)
    ensures
        match r {
            Some(n) => sub_aot(doc_root(*doc), table@, key@) is Some && n == sub_aot(
                doc_root(*doc),
                table@,
                key@,
            ).unwrap().len(),
            None => sub_aot(doc_root(*doc), table@, key@) is None,
        },
{
    match doc.as_table().get(table) {
        Some(Item::Table(h)) => match h.get(key) {
            Some(Item::ArrayOfTables(a)) => Some(a.len()),
            _ => None,
        },
        _ => None,
    }
}

/// The boolean `field` of table `i` at `table.key`, `None` when it is
/// missing or not a boolean (`toml_edit`: `ArrayOfTables::get`,
/// `Table::get`, `Value::as_bool`).
#[verifier::external_body]
fn sub_aot_field_bool(doc: &DocumentMut, table: &str, key: &str, i: usize, field: &str) -> (r: Option<bool>)
    requires
        sub_aot(doc_root(*doc), table@, key@) is Some,
        i < sub_aot(doc_root(*doc), table@, key@).unwrap().len(),
    ensures
        r == bool_field(sub_aot(doc_root(*doc), table@, key@).unwrap()[i as int], field@),
{
    if let Some(Item::Table(h)) = doc.as_table().get(table) {
        if let Some(Item::ArrayOfTables(a)) = h.get(key) {
            if let Some(t) = a.get(i) {
                if let Some(Item::Value(v)) = t.get(field) {
                    return v.as_bool();
                }
            }
        }
    }
    None
}

/// Puts a new empty table at the root's `key` (`toml_edit`: `Table::new`,
/// `Table::set_implicit`, `Table::insert`).
#[verifier::external_body]
fn root_insert_table(doc: &mut DocumentMut, key: &str, implicit: bool)
    ensures
        doc_root(*final(doc)) == doc_root(*old(doc)).insert(
            key@,
            TomlItem::Table(empty_table()),
        ),
{
    let mut t = Table::new();
    t.set_implicit(implicit);
    doc.as_table_mut().insert(key, Item::Table(t));
}

/// Marks the root's table `key` implicit or not; only formatting changes
/// (`toml_edit`: `Table::get_mut`, `Table::set_implicit`).
#[verifier::external_body]
fn root_set_implicit(doc: &mut DocumentMut, key: &str, implicit: bool)
    ensures
        doc_root(*final(doc)) == doc_root(*old(doc)),
{
    if let Some(Item::Table(h)) = doc.as_table_mut().get_mut(key) {
        h.set_implicit(implicit);
    }
}

/// Adds an empty table at the root's `key` unless the key is there
/// (`toml_edit`: `Table::entry`, `Entry::or_insert`).
#[verifier::external_body]
fn root_entry_table(doc: &mut DocumentMut, key: &str)
    ensures
        doc_root(*final(doc)) == if doc_root(*old(doc)).contains_key(key@) {
            doc_root(*old(doc))
        } else {
            doc_root(*old(doc)).insert(key@, TomlItem::Table(empty_table()))
        },
{
    doc.as_table_mut().entry(key).or_insert(Item::Table(Table::new()));
}

/// Sets `table.key` to a boolean when the root's `table` is a table
/// (`toml_edit`: `Table::get_mut`, `IndexMut`, `toml_edit::value`).
#[verifier::external_body]
fn root_table_set_bool(doc: &mut DocumentMut, table: &str, key: &str, b: bool)
    ensures
        doc_root(*final(doc)) == match tget(doc_root(*old(doc)), table@) {
            Some(TomlItem::Table(h)) => doc_root(*old(doc)).insert(
                table@,
                TomlItem::Table(h.insert(key@, TomlItem::Value(TomlValue::Bool(b)))),
            ),
            _ => doc_root(*old(doc)),
        },
{
    if let Some(Item::Table(t)) = doc.as_table_mut().get_mut(table) {
        t[key] = toml_edit::value(b);
    }
}

/// Puts an empty array of tables at `table.key` (`toml_edit`:
/// `Table::get_mut`, `Table::insert`, `ArrayOfTables::new`).
#[verifier::external_body]
fn sub_insert_aot(doc: &mut DocumentMut, table: &str, key: &str)
    requires
        tget(doc_root(*old(doc)), table@) matches Some(TomlItem::Table(_)),
    ensures
        doc_root(*final(doc)) == doc_root(*old(doc)).insert(
            table@,
            TomlItem::Table(
                tget(doc_root(*old(doc)), table@)->Some_0->Table_0.insert(
                    key@,
                    TomlItem::Aot(seq![]),
                ),
            ),
        ),
{
    if let Some(Item::Table(h)) = doc.as_table_mut().get_mut(table) {
        h.insert(key, Item::ArrayOfTables(ArrayOfTables::new()));
    }
}

/// Removes `table.key` (`toml_edit`: `Table::get_mut`, `Table::remove`).
#[verifier::external_body]
fn sub_remove(doc: &mut DocumentMut, table: &str, key: &str)
    requires
        tget(doc_root(*old(doc)), table@) matches Some(TomlItem::Table(_)),
    ensures
        doc_root(*final(doc)) == doc_root(*old(doc)).insert(
            table@,
            TomlItem::Table(tget(doc_root(*old(doc)), table@)->Some_0->Table_0.remove(key@)),
        ),
{
    if let Some(Item::Table(h)) = doc.as_table_mut().get_mut(table) {
        h.remove(key);
    }
}

/// Removes table `i` of the array of tables at `table.key` (`toml_edit`:
/// `ArrayOfTables::remove`).
#[verifier::external_body]
fn sub_aot_remove(doc: &mut DocumentMut, table: &str, key: &str, i: usize)
    requires
        sub_aot(doc_root(*old(doc)), table@, key@) is Some,
        i < sub_aot(doc_root(*old(doc)), table@, key@).unwrap().len(),
    ensures
        doc_root(*final(doc)) == doc_root(*old(doc)).insert(
            table@,
            TomlItem::Table(
                tget(doc_root(*old(doc)), table@)->Some_0->Table_0.insert(
                    key@,
                    TomlItem::Aot(sub_aot(doc_root(*old(doc)), table@, key@).unwrap().remove(i as int)),
                ),
            ),
        ),
{
    if let Some(Item::Table(h)) = doc.as_table_mut().get_mut(table) {
        if let Some(Item::ArrayOfTables(a)) = h.get_mut(key) {
            a.remove(i);
        }
    }
}

/// Appends a table to the array of tables at `table.key` (`toml_edit`:
/// `ArrayOfTables::push`).
#[verifier::external_body]
fn sub_aot_push(doc: &mut DocumentMut, table: &str, key: &str, t: Table)
    requires
        sub_aot(doc_root(*old(doc)), table@, key@) is Some,
    ensures
        doc_root(*final(doc)) == doc_root(*old(doc)).insert(
            table@,
            TomlItem::Table(
                tget(doc_root(*old(doc)), table@)->Some_0->Table_0.insert(
                    key@,
                    TomlItem::Aot(sub_aot(doc_root(*old(doc)), table@, key@).unwrap().push(table_map(t))),
                ),
            ),
        ),
{
    if let Some(Item::Table(h)) = doc.as_table_mut().get_mut(table) {
        if let Some(Item::ArrayOfTables(a)) = h.get_mut(key) {
            a.push(t);
        }
    }
}

/// A new empty table (`toml_edit`: `Table::new`).
#[verifier::external_body]
fn new_table() -> (r: Table)
    ensures
        table_map(r) == empty_table(),
{
    Table::new()
}

/// Sets `key` of a table to a boolean (`toml_edit`: `IndexMut`,
/// `toml_edit::value`).
#[verifier::external_body]
fn table_set_bool(t: &mut Table, key: &str, b: bool)
    ensures
        table_map(*final(t)) == table_map(*old(t)).insert(key@, TomlItem::Value(TomlValue::Bool(b))),
{
    t[key] = toml_edit::value(b);
}

/// Sets `key` of a table to a string (`toml_edit`: `IndexMut`,
/// `toml_edit::value`).
#[verifier::external_body]
fn table_set_str(t: &mut Table, key: &str, s: &str)
    ensures
        table_map(*final(t)) == table_map(*old(t)).insert(key@, TomlItem::Value(TomlValue::Str(s@))),
{
    t[key] = toml_edit::value(s.to_string());
}

/// Puts an array of tables under `key` of a table (`toml_edit`:
/// `Table::insert`).
#[verifier::external_body]
fn table_insert_aot(t: &mut Table, key: &str, a: ArrayOfTables)
    ensures
        table_map(*final(t)) == table_map(*old(t)).insert(key@, TomlItem::Aot(aot_tables(a))),
{
    t.insert(key, Item::ArrayOfTables(a));
}

/// A new empty array of tables (`toml_edit`: `ArrayOfTables::new`).
#[verifier::external_body]
fn new_aot() -> (r: ArrayOfTables)
    ensures
        aot_tables(r).len() == 0,
{
    ArrayOfTables::new()
}

/// Appends a table to an array of tables (`toml_edit`:
/// `ArrayOfTables::push`).
#[verifier::external_body]
fn aot_push(a: &mut ArrayOfTables, t: Table)
    ensures
        aot_tables(*final(a)) == aot_tables(*old(a)).push(table_map(t)),
{
    a.push(t);
}

// ───────────────────────── the overlay's entries ─────────────────────────

/// Number of hook events the overlay listens to in Codex.
pub const CODEX_EVENT_COUNT: usize = 5;

/// The hook events the overlay listens to, in the order it installs them.
pub open spec fn codex_events() -> Seq<Seq<char>> {
    seq!["SessionStart"@, "PreToolUse"@, "PostToolUse"@, "UserPromptSubmit"@, "Stop"@]
}

fn codex_event(i: usize) -> (r: &'static str)
    requires
        i < CODEX_EVENT_COUNT,
    ensures
        r@ == codex_events()[i as int],
{
    match i {
        0 => "SessionStart",
        1 => "PreToolUse",
        2 => "PostToolUse",
        3 => "UserPromptSubmit",
        _ => "Stop",
    }
}

/// A hook table the overlay wrote: `overlay_managed = true`.
pub open spec fn is_managed_table(t: Map<Seq<char>, TomlItem>) -> bool {
    bool_at(t, "overlay_managed"@)
}

/// The command handler of our hook table.
pub open spec fn hook_handler(cmd: Seq<char>) -> Map<Seq<char>, TomlItem> {
    empty_table().insert("type"@, TomlItem::Value(TomlValue::Str("command"@))).insert(
        "command"@,
        TomlItem::Value(TomlValue::Str(cmd)),
    )
}

/// Our hook table: marked as ours, with one command handler running `cmd`.
pub open spec fn managed_table(cmd: Seq<char>) -> Map<Seq<char>, TomlItem> {
    empty_table().insert("overlay_managed"@, TomlItem::Value(TomlValue::Bool(true))).insert(
        "hooks"@,
        TomlItem::Aot(seq![hook_handler(cmd)]),
    )
}

/// The tables that are not ours, in order.
pub open spec fn unmanaged_tables(ts: Seq<Map<Seq<char>, TomlItem>>) -> Seq<Map<Seq<char>, TomlItem>>
    decreases ts.len(),
{
    if ts.len() == 0 {
        seq![]
    } else if is_managed_table(ts.last()) {
        unmanaged_tables(ts.drop_last())
    } else {
        unmanaged_tables(ts.drop_last()).push(ts.last())
    }
}

/// The root's `[hooks]` table, when it is a table.
pub open spec fn hooks_table(root: Map<Seq<char>, TomlItem>) -> Option<Map<Seq<char>, TomlItem>> {
    match tget(root, "hooks"@) {
        Some(TomlItem::Table(h)) => Some(h),
        _ => None,
    }
}

/// The array of tables `hooks.<event>`, when it is one.
pub open spec fn event_tables(h: Map<Seq<char>, TomlItem>, event: Seq<char>) -> Option<
    Seq<Map<Seq<char>, TomlItem>>,
> {
    match tget(h, event) {
        Some(TomlItem::Aot(ts)) => Some(ts),
        _ => None,
    }
}

/// `hooks.<event>` is an array of tables with one of ours.
pub open spec fn has_managed_entry(root: Map<Seq<char>, TomlItem>, event: Seq<char>) -> bool {
    match hooks_table(root) {
        Some(h) => match event_tables(h, event) {
            Some(ts) => exists|i: int| 0 <= i < ts.len() && is_managed_table(#[trigger] ts[i]),
            None => false,
        },
        None => false,
    }
}

/// Every event the overlay listens to has one of our tables.
pub open spec fn spec_is_installed(root: Map<Seq<char>, TomlItem>) -> bool {
    forall|i: int| 0 <= i < codex_events().len() ==> has_managed_entry(root, #[trigger] codex_events()[i])
}

/// `features.codex_hooks = true`, adding a `[features]` table when there is
/// no `features` key; a `features` item that is not a table is left alone.
pub open spec fn features_on(root: Map<Seq<char>, TomlItem>) -> Map<Seq<char>, TomlItem> {
    let r = if root.contains_key("features"@) {
        root
    } else {
        root.insert("features"@, TomlItem::Table(empty_table()))
    };
    match tget(r, "features"@) {
        Some(TomlItem::Table(f)) => r.insert(
            "features"@,
            TomlItem::Table(f.insert("codex_hooks"@, TomlItem::Value(TomlValue::Bool(true)))),
        ),
        _ => r,
    }
}

/// `hooks.<event>` after installing: the user's tables, then ours running
/// `cmd` (an item that is not an array of tables is replaced).
pub open spec fn upsert_event(h: Map<Seq<char>, TomlItem>, event: Seq<char>, cmd: Seq<char>) -> Map<
    Seq<char>,
    TomlItem,
> {
    let ts = match event_tables(h, event) {
        Some(ts) => ts,
        None => seq![],
    };
    h.insert(event, TomlItem::Aot(unmanaged_tables(ts).push(managed_table(cmd))))
}

pub open spec fn upsert_from(h: Map<Seq<char>, TomlItem>, i: int, cmd: Seq<char>) -> Map<
    Seq<char>,
    TomlItem,
>
    decreases codex_events().len() - i,
{
    if i < 0 || i >= codex_events().len() {
        h
    } else {
        upsert_from(upsert_event(h, codex_events()[i], cmd), i + 1, cmd)
    }
}

/// The document after installing: the hooks feature on, `[hooks]` made a
/// table (a missing or malformed one starts empty), and every event listed
/// with the user's tables and then ours running `cmd`.
pub open spec fn install_spec(root: Map<Seq<char>, TomlItem>, cmd: Seq<char>) -> Map<Seq<char>, TomlItem> {
    let r1 = features_on(root);
    let h0 = match hooks_table(r1) {
        Some(h) => h,
        None => empty_table(),
    };
    r1.insert("hooks"@, TomlItem::Table(upsert_from(h0, 0, cmd)))
}

/// `hooks.<event>` after removing: the tables not ours, the key gone when
/// none is left.
pub open spec fn remove_event(h: Map<Seq<char>, TomlItem>, event: Seq<char>) -> Map<Seq<char>, TomlItem> {
    match event_tables(h, event) {
        Some(ts) => {
            let k = unmanaged_tables(ts);
            if k.len() == 0 {
                h.remove(event)
            } else {
                h.insert(event, TomlItem::Aot(k))
            }
        },
        None => h,
    }
}

pub open spec fn remove_from(h: Map<Seq<char>, TomlItem>, i: int) -> Map<Seq<char>, TomlItem>
    decreases codex_events().len() - i,
{
    if i < 0 || i >= codex_events().len() {
        h
    } else {
        remove_from(remove_event(h, codex_events()[i]), i + 1)
    }
}

/// The document after removing our tables from every event (unchanged when
/// `hooks` is not a table).
pub open spec fn remove_spec(root: Map<Seq<char>, TomlItem>) -> Map<Seq<char>, TomlItem> {
    match hooks_table(root) {
        Some(h) => root.insert("hooks"@, TomlItem::Table(remove_from(h, 0))),
        None => root,
    }
}

proof fn lemma_key_names()
    ensures
        "hooks"@ != "features"@,
        "hooks"@ != "overlay_managed"@,
        "type"@ != "command"@,
{
    reveal_strlit("hooks");
    reveal_strlit("features");
    reveal_strlit("overlay_managed");
    reveal_strlit("type");
    reveal_strlit("command");
    assert("hooks"@.len() == 5 && "features"@.len() == 8 && "overlay_managed"@.len() == 15);
    assert("type"@.len() == 4 && "command"@.len() == 7);
}

proof fn lemma_sub_aot_hooks(root: Map<Seq<char>, TomlItem>, e: Seq<char>)
    ensures
        sub_aot(root, "hooks"@, e) == match hooks_table(root) {
            Some(h) => event_tables(h, e),
            None => None,
        },
{
}

/// Whether table `i` of `hooks.<event>` is ours: its marker is `true` (a
/// missing marker, or one that is not a boolean, is not ours).
fn is_managed_at(doc: &DocumentMut, event: &str, i: usize) -> (r: bool)
    requires
        sub_aot(doc_root(*doc), "hooks"@, event@) is Some,
        i < sub_aot(doc_root(*doc), "hooks"@, event@).unwrap().len(),
    ensures
        r == is_managed_table(sub_aot(doc_root(*doc), "hooks"@, event@).unwrap()[i as int]),
{
    match sub_aot_field_bool(doc, "hooks", event, i, "overlay_managed") {
        Some(b) => b,
        None => false,
    }
}

fn has_managed_entry_exec(doc: &DocumentMut, event: &str) -> (r: bool)
    ensures
        r == has_managed_entry(doc_root(*doc), event@),
{
    proof {
        lemma_sub_aot_hooks(doc_root(*doc), event@);
    }
    match sub_aot_len(doc, "hooks", event) {
        None => false,
        Some(n) => {
            let ghost ts = sub_aot(doc_root(*doc), "hooks"@, event@).unwrap();
            let mut i: usize = 0;
            while i < n
                invariant
                    sub_aot(doc_root(*doc), "hooks"@, event@) == Some(ts),
                    n == ts.len(),
                    i <= n,
                    forall|j: int| 0 <= j < i ==> !is_managed_table(#[trigger] ts[j]),
                decreases n - i,
            {
                if is_managed_at(doc, event, i) {
                    return true;
                }
                i += 1;
            }
            false
        },
    }
}

/// Whether the overlay's hooks are in the config: every event it listens
/// to has one of our tables.
pub fn is_installed(doc: &DocumentMut) -> (r: bool)
    ensures
        r == spec_is_installed(doc_root(*doc)),
{
    let mut i: usize = 0;
    while i < CODEX_EVENT_COUNT
        invariant
            i <= CODEX_EVENT_COUNT,
            forall|j: int| 0 <= j < i ==> has_managed_entry(doc_root(*doc), #[trigger] codex_events()[j]),
        decreases CODEX_EVENT_COUNT - i,
    {
        if !has_managed_entry_exec(doc, codex_event(i)) {
            return false;
        }
        i += 1;
    }
    true
}

/// Drops our tables from `hooks.<event>`, which must be an array of tables.
fn drop_managed_tables(doc: &mut DocumentMut, event: &str)
    requires
        sub_aot(doc_root(*old(doc)), "hooks"@, event@) is Some,
    ensures
        doc_root(*final(doc)) == doc_root(*old(doc)).insert(
            "hooks"@,
            TomlItem::Table(
                tget(doc_root(*old(doc)), "hooks"@)->Some_0->Table_0.insert(
                    event@,
                    TomlItem::Aot(unmanaged_tables(sub_aot(doc_root(*old(doc)), "hooks"@, event@).unwrap())),
                ),
            ),
        ),
{
    let ghost root0 = doc_root(*doc);
    let ghost h0 = tget(root0, "hooks"@)->Some_0->Table_0;
    let ghost orig = sub_aot(root0, "hooks"@, event@).unwrap();
    assert(orig.take(0) =~= Seq::<Map<Seq<char>, TomlItem>>::empty());
    assert(orig.skip(0) =~= orig);
    assert(h0.insert(event@, TomlItem::Aot(orig)) =~= h0);
    let ghost mut seen: int = 0;
    let ghost mut cur: Seq<Map<Seq<char>, TomlItem>> = orig;
    assert(cur =~= unmanaged_tables(orig.take(seen)) + orig.skip(seen));
    let mut i: usize = 0;
    let mut n: usize = match sub_aot_len(doc, "hooks", event) {
        Some(n) => n,
        None => 0,
    };
    while i < n
        invariant
            0 <= seen <= orig.len(),
            i as int == unmanaged_tables(orig.take(seen)).len(),
            cur == unmanaged_tables(orig.take(seen)) + orig.skip(seen),
            h0 == tget(root0, "hooks"@)->Some_0->Table_0,
            tget(root0, "hooks"@) matches Some(TomlItem::Table(_)),
            h0.contains_key(event@),
            doc_root(*doc) == (if seen == 0 {
                root0
            } else {
                root0.insert("hooks"@, TomlItem::Table(h0.insert(event@, TomlItem::Aot(cur))))
            }),
            sub_aot(doc_root(*doc), "hooks"@, event@) == Some(cur),
            tget(doc_root(*doc), "hooks"@) == Some(TomlItem::Table(h0.insert(event@, TomlItem::Aot(cur)))),
            n == cur.len(),
        decreases n - i,
    {
        assert(cur[i as int] == orig[seen]);
        assert(orig.take(seen + 1).drop_last() =~= orig.take(seen));
        assert(orig.take(seen + 1).last() == orig[seen]);
        let ghost rb = doc_root(*doc);
        let ghost next: Seq<Map<Seq<char>, TomlItem>>;
        if is_managed_at(doc, event, i) {
            sub_aot_remove(doc, "hooks", event, i);
            proof {
                next = cur.remove(i as int);
            }
            assert(next =~= unmanaged_tables(orig.take(seen + 1)) + orig.skip(seen + 1));
            n -= 1;
        } else {
            proof {
                next = cur;
            }
            assert(next =~= unmanaged_tables(orig.take(seen + 1)) + orig.skip(seen + 1));
            i += 1;
        }
        proof {
            let hn = h0.insert(event@, TomlItem::Aot(next));
            assert(h0.insert(event@, TomlItem::Aot(cur)).insert(event@, TomlItem::Aot(next)) =~= hn);
            if next == cur {
                if seen == 0 {
                    assert(root0 =~= root0.insert("hooks"@, TomlItem::Table(hn))) by {
                        assert(h0 =~= hn);
                    }
                }
            } else {
                assert(doc_root(*doc) =~= root0.insert("hooks"@, TomlItem::Table(hn)));
            }
            seen = seen + 1;
            cur = next;
        }
    }
    assert(orig.take(seen) =~= orig);
    assert(orig.skip(seen) =~= Seq::<Map<Seq<char>, TomlItem>>::empty());
    assert(unmanaged_tables(orig) + Seq::<Map<Seq<char>, TomlItem>>::empty() =~= unmanaged_tables(orig));
    proof {
        if seen == 0 {
            assert(orig.len() == 0);
            assert(unmanaged_tables(orig) =~= orig);
            assert(h0.insert(event@, TomlItem::Aot(orig)) =~= h0);
            assert(root0.insert("hooks"@, TomlItem::Table(h0)) =~= root0);
        }
    }
}

/// Our hook table, built for `cmd`.
fn managed_table_exec(cmd: &str) -> (r: Table)
    ensures
        table_map(r) == managed_table(cmd@),
{
    let mut handler = new_table();
    table_set_str(&mut handler, "type", "command");
    table_set_str(&mut handler, "command", cmd);
    let mut handlers = new_aot();
    aot_push(&mut handlers, handler);
    let mut t = new_table();
    table_set_bool(&mut t, "overlay_managed", true);
    table_insert_aot(&mut t, "hooks", handlers);
    assert(aot_tables(handlers) =~= seq![hook_handler(cmd@)]);
    t
}

/// Turns on `features.codex_hooks`, adding an explicit `[features]` table
/// when there is no `features` key.
fn enable_feature_flag(doc: &mut DocumentMut)
    ensures
        doc_root(*final(doc)) == features_on(doc_root(*old(doc))),
{
    root_entry_table(doc, "features");
    root_set_implicit(doc, "features", false);
    root_table_set_bool(doc, "features", "codex_hooks", true);
}

/// Installs our table, running `command`, for every event, and turns on the
/// hooks feature; the user's own tables stay, in order, before ours.
pub fn install(doc: &mut DocumentMut, command: &str)
    ensures
        doc_root(*final(doc)) == install_spec(doc_root(*old(doc)), command@),
{
    enable_feature_flag(doc);
    let ghost r1 = doc_root(*doc);
    let ghost h0 = match hooks_table(r1) {
        Some(h) => h,
        None => empty_table(),
    };
    if root_is_table(doc, "hooks") {
        root_set_implicit(doc, "hooks", true);
        assert(r1.insert("hooks"@, TomlItem::Table(h0)) =~= r1);
    } else {
        root_insert_table(doc, "hooks", true);
    }
    let ghost mut hc = h0;
    let mut i: usize = 0;
    while i < CODEX_EVENT_COUNT
        invariant
            i <= CODEX_EVENT_COUNT,
            doc_root(*doc) == r1.insert("hooks"@, TomlItem::Table(hc)),
            upsert_from(hc, i as int, command@) == upsert_from(h0, 0, command@),
        decreases CODEX_EVENT_COUNT - i,
    {
        let event = codex_event(i);
        proof {
            lemma_sub_aot_hooks(doc_root(*doc), event@);
        }
        let ghost ts = match event_tables(hc, event@) {
            Some(ts) => ts,
            None => seq![],
        };
        let ghost ha = hc.insert(event@, TomlItem::Aot(ts));
        if sub_aot_len(doc, "hooks", event).is_none() {
            sub_insert_aot(doc, "hooks", event);
            assert(doc_root(*doc) =~= r1.insert("hooks"@, TomlItem::Table(ha)));
        } else {
            assert(ha =~= hc);
        }
        proof {
            lemma_sub_aot_hooks(doc_root(*doc), event@);
            assert(sub_aot(doc_root(*doc), "hooks"@, event@) == Some(ts));
        }
        drop_managed_tables(doc, event);
        let ghost hb = ha.insert(event@, TomlItem::Aot(unmanaged_tables(ts)));
        assert(doc_root(*doc) =~= r1.insert("hooks"@, TomlItem::Table(hb)));
        let t = managed_table_exec(command);
        sub_aot_push(doc, "hooks", event, t);
        proof {
            let hn = upsert_event(hc, event@, command@);
            assert(hb.insert(event@, TomlItem::Aot(unmanaged_tables(ts).push(managed_table(command@)))) =~= hn);
            assert(doc_root(*doc) =~= r1.insert("hooks"@, TomlItem::Table(hn)));
            hc = hn;
        }
        i += 1;
    }
}

/// Removes our tables from every event (nothing changes when `hooks` is not
/// a table).
pub fn remove(doc: &mut DocumentMut)
    ensures
        doc_root(*final(doc)) == remove_spec(doc_root(*old(doc))),
{
    if !root_is_table(doc, "hooks") {
        return;
    }
    let ghost root0 = doc_root(*doc);
    let ghost h0 = hooks_table(root0).unwrap();
    assert(root0.insert("hooks"@, TomlItem::Table(h0)) =~= root0);
    let ghost mut hc = h0;
    let mut i: usize = 0;
    while i < CODEX_EVENT_COUNT
        invariant
            i <= CODEX_EVENT_COUNT,
            doc_root(*doc) == root0.insert("hooks"@, TomlItem::Table(hc)),
            remove_from(hc, i as int) == remove_from(h0, 0),
        decreases CODEX_EVENT_COUNT - i,
    {
        let event = codex_event(i);
        proof {
            lemma_sub_aot_hooks(doc_root(*doc), event@);
        }
        if sub_aot_len(doc, "hooks", event).is_some() {
            let ghost ts = event_tables(hc, event@).unwrap();
            drop_managed_tables(doc, event);
            let ghost hb = hc.insert(event@, TomlItem::Aot(unmanaged_tables(ts)));
            assert(doc_root(*doc) =~= root0.insert("hooks"@, TomlItem::Table(hb)));
            proof {
                lemma_sub_aot_hooks(doc_root(*doc), event@);
            }
            let left = match sub_aot_len(doc, "hooks", event) {
                Some(n) => n,
                None => 0,
            };
            if left == 0 {
                sub_remove(doc, "hooks", event);
                assert(hb.remove(event@) =~= hc.remove(event@));
                assert(doc_root(*doc) =~= root0.insert("hooks"@, TomlItem::Table(remove_event(hc, event@))));
            } else {
                assert(doc_root(*doc) =~= root0.insert("hooks"@, TomlItem::Table(remove_event(hc, event@))));
            }
        } else {
            assert(remove_event(hc, event@) == hc);
        }
        proof {
            hc = remove_event(hc, event@);
        }
        i += 1;
    }
}

// ───────────────────────── config text ─────────────────────────

/// Whether a config text has the overlay's hooks; a text that is not valid
/// TOML has none.
pub fn is_installed_text(text: &str) -> (r: bool)
    ensures
        r == match toml_root(text@) {
            Some(m) => spec_is_installed(m),
            None => false,
        },
{
    match parse_document(text) {
        Some(d) => is_installed(&d),
        None => false,
    }
}

/// The document to write after installing into a config text (an empty
/// text starts an empty document); `None` when the text is not valid TOML.
pub fn install_text(text: &str, command: &str) -> (r: Option<DocumentMut>)
    ensures
        match r {
            Some(d) => {
                &&& text@.len() == 0 || toml_root(text@) is Some
                &&& doc_root(d) == install_spec(
                    if text@.len() == 0 {
                        empty_table()
                    } else {
                        toml_root(text@).unwrap()
                    },
                    command@,
                )
            },
            None => text@.len() > 0 && toml_root(text@) is None,
        },
{
    let mut d = if text.is_empty() {
        new_document()
    } else {
        match parse_document(text) {
            Some(d) => d,
            None => {
                return None;
            },
        }
    };
    install(&mut d, command);
    Some(d)
}

/// The document to write after removing our hooks from a config text;
/// `None` when the text is not valid TOML.
pub fn remove_text(text: &str) -> (r: Option<DocumentMut>)
    ensures
        match r {
            Some(d) => toml_root(text@) is Some && doc_root(d) == remove_spec(toml_root(text@).unwrap()),
            None => toml_root(text@) is None,
        },
{
    match parse_document(text) {
        Some(d) => {
            let mut d = d;
            remove(&mut d);
            Some(d)
        },
        None => None,
    }
}

// ───────────────────────── laws ─────────────────────────

/// `hooks.<event>` ends with one table of ours, running `cmd`, and no table
/// before it is ours.
pub open spec fn ours_once(h: Map<Seq<char>, TomlItem>, event: Seq<char>, cmd: Seq<char>) -> bool {
    match event_tables(h, event) {
        Some(ts) => {
            &&& ts.len() > 0
            &&& ts.last() == managed_table(cmd)
            &&& forall|k: int| 0 <= k < ts.len() - 1 ==> !is_managed_table(#[trigger] ts[k])
        },
        None => false,
    }
}

/// `key` is in `m1` exactly when it is in `m0`, with the same item.
pub open spec fn same_at(m1: Map<Seq<char>, TomlItem>, m0: Map<Seq<char>, TomlItem>, key: Seq<char>) -> bool {
    &&& m1.contains_key(key) == m0.contains_key(key)
    &&& m0.contains_key(key) ==> m1[key] == m0[key]
}

proof fn lemma_events_distinct()
    ensures
        forall|i: int, j: int|
            0 <= i < j < codex_events().len() ==> codex_events()[i] != codex_events()[j],
{
    reveal_strlit("SessionStart");
    reveal_strlit("PreToolUse");
    reveal_strlit("PostToolUse");
    reveal_strlit("UserPromptSubmit");
    reveal_strlit("Stop");
    let e = codex_events();
    assert(e[0].len() == 12 && e[1].len() == 10 && e[2].len() == 11);
    assert(e[3].len() == 16 && e[4].len() == 4);
}

proof fn lemma_unmanaged_tables(ts: Seq<Map<Seq<char>, TomlItem>>)
    ensures
        forall|k: int|
            0 <= k < unmanaged_tables(ts).len() ==> !is_managed_table(#[trigger] unmanaged_tables(ts)[k]),
    decreases ts.len(),
{
    if ts.len() > 0 {
        lemma_unmanaged_tables(ts.drop_last());
        let r = unmanaged_tables(ts.drop_last());
        assert forall|k: int| 0 <= k < unmanaged_tables(ts).len() implies !is_managed_table(
            #[trigger] unmanaged_tables(ts)[k],
        ) by {
            if k < r.len() {
                assert(unmanaged_tables(ts)[k] == r[k]);
            }
        }
    }
}

proof fn lemma_managed_table_is_ours(cmd: Seq<char>)
    ensures
        is_managed_table(managed_table(cmd)),
{
    lemma_key_names();
}

proof fn lemma_upsert_from(h: Map<Seq<char>, TomlItem>, i: int, cmd: Seq<char>)
    requires
        0 <= i <= codex_events().len(),
    ensures
        forall|j: int|
            i <= j < codex_events().len() ==> ours_once(upsert_from(h, i, cmd), #[trigger] codex_events()[j], cmd),
        forall|key: Seq<char>|
            (forall|j: int| i <= j < codex_events().len() ==> key != #[trigger] codex_events()[j])
                ==> #[trigger] same_at(upsert_from(h, i, cmd), h, key),
    decreases codex_events().len() - i,
{
    if i < codex_events().len() {
        let e = codex_events()[i];
        let h1 = upsert_event(h, e, cmd);
        lemma_upsert_from(h1, i + 1, cmd);
        lemma_events_distinct();
        assert(upsert_from(h, i, cmd) == upsert_from(h1, i + 1, cmd));
        let ts = match event_tables(h, e) {
            Some(ts) => ts,
            None => seq![],
        };
        lemma_unmanaged_tables(ts);
        let x = unmanaged_tables(ts).push(managed_table(cmd));
        assert forall|k: int| 0 <= k < x.len() - 1 implies !is_managed_table(#[trigger] x[k]) by {
            assert(x[k] == unmanaged_tables(ts)[k]);
        }
        assert(event_tables(h1, e) == Some(x));
        assert(ours_once(h1, e, cmd));
        assert forall|j: int| i <= j < codex_events().len() implies ours_once(
            upsert_from(h, i, cmd),
            #[trigger] codex_events()[j],
            cmd,
        ) by {
            if j == i {
                assert forall|jj: int| i + 1 <= jj < codex_events().len() implies e != #[trigger] codex_events()[jj] by {}
                assert(same_at(upsert_from(h1, i + 1, cmd), h1, e));
                assert(event_tables(upsert_from(h1, i + 1, cmd), e) == event_tables(h1, e));
            }
        }
        assert forall|key: Seq<char>|
            (forall|j: int| i <= j < codex_events().len() ==> key != #[trigger] codex_events()[j])
                implies #[trigger] same_at(upsert_from(h, i, cmd), h, key) by {
            assert(key != codex_events()[i]);
            assert forall|j: int| i + 1 <= j < codex_events().len() implies key != #[trigger] codex_events()[j] by {}
            assert(same_at(upsert_from(h1, i + 1, cmd), h1, key));
        }
    }
}

/// Installing gives every event the overlay listens to exactly one table
/// of ours, running the command, last in its array: the config then reads
/// as installed.
pub proof fn lemma_install_is_installed(root: Map<Seq<char>, TomlItem>, cmd: Seq<char>)
    ensures
        spec_is_installed(install_spec(root, cmd)),
        forall|i: int|
            0 <= i < codex_events().len() ==> ours_once(
                hooks_table(install_spec(root, cmd)).unwrap(),
                #[trigger] codex_events()[i],
                cmd,
            ),
{
    let r1 = features_on(root);
    let h0 = match hooks_table(r1) {
        Some(h) => h,
        None => empty_table(),
    };
    let h1 = upsert_from(h0, 0, cmd);
    lemma_upsert_from(h0, 0, cmd);
    let d = install_spec(root, cmd);
    assert(hooks_table(d) == Some(h1));
    lemma_managed_table_is_ours(cmd);
    assert forall|i: int| 0 <= i < codex_events().len() implies has_managed_entry(
        d,
        #[trigger] codex_events()[i],
    ) by {
        let e = codex_events()[i];
        assert(ours_once(h1, e, cmd));
        let ts = event_tables(h1, e).unwrap();
        assert(is_managed_table(ts[ts.len() - 1]));
    }
}

proof fn lemma_remove_from(h: Map<Seq<char>, TomlItem>, i: int)
    requires
        0 <= i <= codex_events().len(),
    ensures
        forall|j: int|
            i <= j < codex_events().len() ==> match event_tables(remove_from(h, i), #[trigger] codex_events()[j]) {
                Some(ts) => forall|k: int| 0 <= k < ts.len() ==> !is_managed_table(#[trigger] ts[k]),
                None => true,
            },
        forall|key: Seq<char>|
            (forall|j: int| i <= j < codex_events().len() ==> key != #[trigger] codex_events()[j])
                ==> #[trigger] same_at(remove_from(h, i), h, key),
    decreases codex_events().len() - i,
{
    if i < codex_events().len() {
        let e = codex_events()[i];
        let h1 = remove_event(h, e);
        lemma_remove_from(h1, i + 1);
        lemma_events_distinct();
        assert(remove_from(h, i) == remove_from(h1, i + 1));
        match event_tables(h, e) {
            Some(ts) => lemma_unmanaged_tables(ts),
            None => {},
        }
        assert forall|j: int| i <= j < codex_events().len() implies match event_tables(
            remove_from(h, i),
            #[trigger] codex_events()[j],
        ) {
            Some(ts) => forall|k: int| 0 <= k < ts.len() ==> !is_managed_table(#[trigger] ts[k]),
            None => true,
        } by {
            if j == i {
                assert forall|jj: int| i + 1 <= jj < codex_events().len() implies e != #[trigger] codex_events()[jj] by {}
                assert(same_at(remove_from(h1, i + 1), h1, e));
                assert(event_tables(remove_from(h1, i + 1), e) == event_tables(h1, e));
            }
        }
        assert forall|key: Seq<char>|
            (forall|j: int| i <= j < codex_events().len() ==> key != #[trigger] codex_events()[j])
                implies #[trigger] same_at(remove_from(h, i), h, key) by {
            assert(key != codex_events()[i]);
            assert forall|j: int| i + 1 <= j < codex_events().len() implies key != #[trigger] codex_events()[j] by {}
            assert(same_at(remove_from(h1, i + 1), h1, key));
        }
    }
}

/// After removal no event the overlay listens to has a table of ours, so
/// the config no longer reads as installed.
pub proof fn lemma_remove_leaves_none(root: Map<Seq<char>, TomlItem>)
    ensures
        forall|i: int|
            0 <= i < codex_events().len() ==> !has_managed_entry(remove_spec(root), #[trigger] codex_events()[i]),
        !spec_is_installed(remove_spec(root)),
{
    match hooks_table(root) {
        Some(h) => {
            lemma_remove_from(h, 0);
            let h1 = remove_from(h, 0);
            assert(hooks_table(remove_spec(root)) == Some(h1));
            assert forall|i: int| 0 <= i < codex_events().len() implies !has_managed_entry(
                remove_spec(root),
                #[trigger] codex_events()[i],
            ) by {
                let e = codex_events()[i];
                match event_tables(h1, e) {
                    Some(ts) => {
                        assert(forall|k: int| 0 <= k < ts.len() ==> !is_managed_table(#[trigger] ts[k]));
                    },
                    None => {},
                }
            }
        },
        None => {},
    }
    assert(!has_managed_entry(remove_spec(root), codex_events()[0]));
}

/// Installing and then removing leaves a config that does not read as
/// installed, whatever it held before.
pub proof fn lemma_install_then_remove(root: Map<Seq<char>, TomlItem>, cmd: Seq<char>)
    ensures
        !spec_is_installed(remove_spec(install_spec(root, cmd))),
{
    lemma_remove_leaves_none(install_spec(root, cmd));
}

} // verus!
