//! YAML documents: their shape, and reading and writing them through `serde_yaml`.
//!
//! [`Yaml`] holds a whole document as plain values. Numbers and tags are carried through
//! unread. [`YamlView`] is the mathematical shape that contracts speak of.

use crate::text::same_text;
use vstd::prelude::*;

verus! {

/// A YAML value of `serde_yaml`, known here only through [`yaml_tree`].
#[verifier::external_type_specification]
#[verifier::external_body]
pub struct ExYamlValue(serde_yaml::Value);

/// A YAML number, carried through unread.
#[verifier::external_type_specification]
#[verifier::external_body]
pub struct ExYamlNumber(serde_yaml::Number);

/// A YAML tag, carried through unread.
#[verifier::external_type_specification]
#[verifier::external_body]
pub struct ExYamlTag(serde_yaml::value::Tag);

/// The error of reading or writing YAML.
#[verifier::external_type_specification]
#[verifier::external_body]
pub struct ExYamlError(serde_yaml::Error);

/// The shape of a YAML value. A table lists its entries in the order of the document.
pub enum YamlView {
    Null,
    Bool(bool),
    Num(serde_yaml::Number),
    Text(Seq<char>),
    List(Seq<YamlView>),
    Table(Seq<(YamlView, YamlView)>),
    Tagged(serde_yaml::value::Tag, Box<YamlView>),
}

/// A YAML value.
#[derive(Debug, PartialEq)]
pub enum Yaml {
    Null,
    Bool(bool),
    Num(serde_yaml::Number),
    Text(String),
    List(Vec<Yaml>),
    Table(Table),
    Tagged(Box<TaggedYaml>),
}

/// A YAML mapping, in the order of the document.
#[derive(Debug, PartialEq)]
pub struct Table {
    pub entries: Vec<(Yaml, Yaml)>,
}

/// A YAML value behind a tag, as in `!Thing x`.
#[derive(Debug, PartialEq)]
pub struct TaggedYaml {
    pub tag: serde_yaml::value::Tag,
    pub value: Yaml,
}

/// The shape of a value.
pub open spec fn yaml_of(v: Yaml) -> YamlView
    decreases v,
{
    match v {
        Yaml::Null => YamlView::Null,
        Yaml::Bool(b) => YamlView::Bool(b),
        Yaml::Num(n) => YamlView::Num(n),
        Yaml::Text(s) => YamlView::Text(s@),
        Yaml::List(items) => YamlView::List(
            Seq::new(
                items@.len(),
                |i: int|
                    if 0 <= i < items@.len() {
                        yaml_of(items@[i])
                    } else {
                        arbitrary()
                    },
            ),
        ),
        Yaml::Table(t) => YamlView::Table(
            Seq::new(
                t.entries@.len(),
                |i: int|
                    if 0 <= i < t.entries@.len() {
                        (yaml_of(t.entries@[i].0), yaml_of(t.entries@[i].1))
                    } else {
                        arbitrary()
                    },
            ),
        ),
        Yaml::Tagged(t) => YamlView::Tagged(t.tag, Box::new(yaml_of(t.value))),
    }
}

impl View for Yaml {
    type V = YamlView;

    open spec fn view(&self) -> YamlView {
        yaml_of(*self)
    }
}

/// The entries of a table.
pub open spec fn entries_of(entries: Seq<(Yaml, Yaml)>) -> Seq<(YamlView, YamlView)> {
    entries.map_values(|e: (Yaml, Yaml)| (e.0@, e.1@))
}

/// The items of a list.
pub open spec fn items_of(items: Seq<Yaml>) -> Seq<YamlView> {
    items.map_values(|v: Yaml| v@)
}

impl View for Table {
    type V = Seq<(YamlView, YamlView)>;

    open spec fn view(&self) -> Seq<(YamlView, YamlView)> {
        entries_of(self.entries@)
    }
}

/// The shape of a list or a table is made of the shapes of its parts.
pub broadcast proof fn lemma_yaml_of_parts(v: Yaml)
    ensures
        v matches Yaml::List(items) ==> #[trigger] yaml_of(v) == YamlView::List(items_of(items@)),
        v matches Yaml::Table(t) ==> yaml_of(v) == YamlView::Table(t@),
{
    match v {
        Yaml::List(items) => {
            assert(yaml_of(v)->List_0 =~= items_of(items@));
        },
        Yaml::Table(t) => {
            assert(yaml_of(v)->Table_0 =~= t@);
        },
        _ => {},
    }
}

/// The shape of a `serde_yaml::Value`.
pub uninterp spec fn yaml_tree(v: serde_yaml::Value) -> YamlView;

/// Whether two values of these shapes are equal by the `==` of `serde_yaml::Value`.
pub uninterp spec fn yaml_equal(a: YamlView, b: YamlView) -> bool;

/// The document that a text holds, if it is YAML.
pub uninterp spec fn yaml_parsed(text: Seq<char>) -> Option<YamlView>;

/// The text of a document, if it can be written.
pub uninterp spec fn yaml_text(y: YamlView) -> Option<Seq<char>>;

/// Whether two keys can stand in one table.
pub open spec fn keys_differ(a: YamlView, b: YamlView) -> bool {
    match (a, b) {
        (YamlView::Text(s), YamlView::Text(t)) => s != t,
        (YamlView::Text(_), _) => true,
        (_, YamlView::Text(_)) => true,
        _ => !yaml_equal(a, b),
    }
}

/// Whether the keys of a table are pairwise different.
pub open spec fn distinct_keys(entries: Seq<(YamlView, YamlView)>) -> bool {
    forall|i: int, j: int|
        0 <= i < j < entries.len() ==> keys_differ((#[trigger] entries[i]).0, (#[trigger] entries[j]).0)
}

/// Whether no table in the document has a key twice.
pub open spec fn sound(y: YamlView) -> bool
    decreases y,
{
    match y {
        YamlView::List(items) => forall|i: int| 0 <= i < items.len() ==> sound(#[trigger] items[i]),
        YamlView::Table(entries) => {
            &&& distinct_keys(entries)
            &&& forall|i: int|
                0 <= i < entries.len() ==> sound((#[trigger] entries[i]).0) && sound(entries[i].1)
        },
        YamlView::Tagged(_, inner) => sound(*inner),
        _ => true,
    }
}

/// One level of a `serde_yaml::Value`.
pub enum Node {
    Null,
    Bool(bool),
    Num(serde_yaml::Number),
    Text(String),
    List(Vec<serde_yaml::Value>),
    Table(Vec<(serde_yaml::Value, serde_yaml::Value)>),
    Tagged(serde_yaml::value::Tag, serde_yaml::Value),
}

/// The shape of a value whose first level is known.
pub open spec fn node_tree(n: Node) -> YamlView {
    match n {
        Node::Null => YamlView::Null,
        Node::Bool(b) => YamlView::Bool(b),
        Node::Num(n) => YamlView::Num(n),
        Node::Text(s) => YamlView::Text(s@),
        Node::List(items) => YamlView::List(items@.map_values(|v| yaml_tree(v))),
        Node::Table(entries) => YamlView::Table(
            entries@.map_values(
                |e: (serde_yaml::Value, serde_yaml::Value)| (yaml_tree(e.0), yaml_tree(e.1)),
            ),
        ),
        Node::Tagged(t, v) => YamlView::Tagged(t, Box::new(yaml_tree(v))),
    }
}

/// Takes a `serde_yaml::Value` apart by one level: its variant and the fields of the
/// variant, a mapping as the list of its entries in their order (`Mapping::into_iter`). No two
/// keys of a mapping are equal; a string key equals only the string key with the same
/// characters.
#[verifier::external_body]
fn open_node(v: serde_yaml::Value) -> (n: Node)
    ensures
        node_tree(n) == yaml_tree(v),
        node_tree(n) matches YamlView::Table(entries) ==> forall|i: int, j: int|
            0 <= i < j < entries.len() ==> match (
                (#[trigger] entries[i]).0,
                (#[trigger] entries[j]).0,
            ) {
                (YamlView::Text(s), YamlView::Text(t)) => s != t,
                (YamlView::Text(_), _) => true,
                (_, YamlView::Text(_)) => true,
                (a, b) => !yaml_equal(a, b),
            },
{
    match v {
        serde_yaml::Value::Null => Node::Null,
        serde_yaml::Value::Bool(b) => Node::Bool(b),
        serde_yaml::Value::Number(n) => Node::Num(n),
        serde_yaml::Value::String(s) => Node::Text(s),
        serde_yaml::Value::Sequence(items) => Node::List(items),
        serde_yaml::Value::Mapping(m) => Node::Table(m.into_iter().collect()),
        serde_yaml::Value::Tagged(t) => Node::Tagged(t.tag, t.value),
    }
}

/// Puts a `serde_yaml::Value` together from its first level. A mapping (`Mapping::from_iter`)
/// keeps the entries and their order, since no two of its keys are equal.
#[verifier::external_body]
fn close_node(n: Node) -> (v: serde_yaml::Value)
    requires
        node_tree(n) matches YamlView::Table(entries) ==> distinct_keys(entries),
    ensures
        yaml_tree(v) == node_tree(n),
{
    match n {
        Node::Null => serde_yaml::Value::Null,
        Node::Bool(b) => serde_yaml::Value::Bool(b),
        Node::Num(n) => serde_yaml::Value::Number(n),
        Node::Text(s) => serde_yaml::Value::String(s),
        Node::List(items) => serde_yaml::Value::Sequence(items),
        Node::Table(entries) => serde_yaml::Value::Mapping(entries.into_iter().collect()),
        Node::Tagged(tag, value) => serde_yaml::Value::Tagged(Box::new(serde_yaml::value::TaggedValue { tag, value })),
    }
}

/// Reads a text with `serde_yaml::from_str`. The result depends on the text alone.
#[verifier::external_body]
fn parse_value(text: &str) -> (r: Result<serde_yaml::Value, serde_yaml::Error>)
    ensures
        match r {
            Ok(v) => yaml_parsed(text@) == Some(yaml_tree(v)),
            Err(_) => yaml_parsed(text@) is None,
        },
{
    serde_yaml::from_str(text)
}

/// Writes a value with `serde_yaml::to_string`. The result depends on the shape of the value
/// alone.
#[verifier::external_body]
fn emit_value(v: &serde_yaml::Value) -> (r: Result<String, serde_yaml::Error>)
    ensures
        match r {
            Ok(s) => yaml_text(yaml_tree(*v)) == Some(s@),
            Err(_) => yaml_text(yaml_tree(*v)) is None,
        },
{
    serde_yaml::to_string(v)
}

/// The plain value of a `serde_yaml::Value`.
fn read_tree(v: serde_yaml::Value) -> (r: Yaml)
    ensures
        r@ == yaml_tree(v),
        sound(r@),
    decreases yaml_tree(v),
{
    broadcast use lemma_yaml_of_parts;

    let ghost shape = yaml_tree(v);
    match open_node(v) {
        Node::Null => Yaml::Null,
        Node::Bool(b) => Yaml::Bool(b),
        Node::Num(n) => Yaml::Num(n),
        Node::Text(s) => Yaml::Text(s),
        Node::List(items) => {
            let ghost parts = shape->List_0;
            let mut out: Vec<Yaml> = Vec::new();
            for x in it: items
                invariant
                    shape == yaml_tree(v),
                    shape == YamlView::List(parts),
                    parts == it.seq().map_values(|v| yaml_tree(v)),
                    out@.len() == it.index(),
                    forall|i: int| 0 <= i < out@.len() ==> (#[trigger] out@[i])@ == parts[i],
                    forall|i: int| 0 <= i < out@.len() ==> sound(parts[i]),
            {
                let ghost k = out@.len() as int;
                assert(parts[k] == yaml_tree(x));
                assert(decreases_to!(shape => shape->List_0[k]));
                out.push(read_tree(x));
            }
            assert(items_of(out@) =~= parts);
            Yaml::List(out)
        },
        Node::Table(entries) => {
            let ghost parts = shape->Table_0;
            let mut out: Vec<(Yaml, Yaml)> = Vec::new();
            for e in it: entries
                invariant
                    shape == yaml_tree(v),
                    shape == YamlView::Table(parts),
                    parts == it.seq().map_values(
                        |e: (serde_yaml::Value, serde_yaml::Value)|
                            (yaml_tree(e.0), yaml_tree(e.1)),
                    ),
                    out@.len() == it.index(),
                    forall|i: int|
                        0 <= i < out@.len() ==> (#[trigger] out@[i]).0@ == parts[i].0
                            && out@[i].1@ == parts[i].1,
                    forall|i: int|
                        0 <= i < out@.len() ==> sound((#[trigger] parts[i]).0) && sound(parts[i].1),
            {
                let ghost k = out@.len() as int;
                assert(parts[k] == (yaml_tree(e.0), yaml_tree(e.1)));
                assert(decreases_to!(shape => shape->Table_0[k].0));
                assert(decreases_to!(shape => shape->Table_0[k].1));
                let (key, value) = e;
                out.push((read_tree(key), read_tree(value)));
            }
            assert(entries_of(out@) =~= parts);
            Yaml::Table(Table { entries: out })
        },
        Node::Tagged(tag, value) => {
            assert(decreases_to!(shape => *shape->Tagged_1));
            Yaml::Tagged(Box::new(TaggedYaml { tag, value: read_tree(value) }))
        },
    }
}

/// The `serde_yaml::Value` of a plain value.
fn build_tree(y: Yaml) -> (r: serde_yaml::Value)
    requires
        sound(y@),
    ensures
        yaml_tree(r) == y@,
    decreases y@,
{
    broadcast use lemma_yaml_of_parts;

    let ghost shape = y@;
    let node = match y {
        Yaml::Null => Node::Null,
        Yaml::Bool(b) => Node::Bool(b),
        Yaml::Num(n) => Node::Num(n),
        Yaml::Text(s) => Node::Text(s),
        Yaml::List(items) => {
            let ghost parts = shape->List_0;
            let mut out: Vec<serde_yaml::Value> = Vec::new();
            for x in it: items
                invariant
                    sound(shape),
                    shape == y@,
                    shape == YamlView::List(parts),
                    parts == items_of(it.seq()),
                    out@.len() == it.index(),
                    forall|i: int| 0 <= i < out@.len() ==> yaml_tree(#[trigger] out@[i]) == parts[i],
            {
                let ghost k = out@.len() as int;
                assert(parts[k] == x@);
                assert(decreases_to!(shape => shape->List_0[k]));
                out.push(build_tree(x));
            }
            assert(out@.map_values(|v| yaml_tree(v)) =~= parts);
            Node::List(out)
        },
        Yaml::Table(t) => {
            let ghost parts = shape->Table_0;
            let mut out: Vec<(serde_yaml::Value, serde_yaml::Value)> = Vec::new();
            for e in it: t.entries
                invariant
                    sound(shape),
                    shape == y@,
                    shape == YamlView::Table(parts),
                    parts == entries_of(it.seq()),
                    out@.len() == it.index(),
                    forall|i: int|
                        0 <= i < out@.len() ==> yaml_tree((#[trigger] out@[i]).0) == parts[i].0
                            && yaml_tree(out@[i].1) == parts[i].1,
            {
                let ghost k = out@.len() as int;
                assert(parts[k] == (e.0@, e.1@));
                assert(decreases_to!(shape => shape->Table_0[k].0));
                assert(decreases_to!(shape => shape->Table_0[k].1));
                let (key, value) = e;
                out.push((build_tree(key), build_tree(value)));
            }
            assert(out@.map_values(
                |e: (serde_yaml::Value, serde_yaml::Value)| (yaml_tree(e.0), yaml_tree(e.1)),
            ) =~= parts);
            Node::Table(out)
        },
        Yaml::Tagged(t) => {
            assert(decreases_to!(shape => *shape->Tagged_1));
            let TaggedYaml { tag, value } = *t;
            Node::Tagged(tag, build_tree(value))
        },
    };
    close_node(node)
}

/// The value behind all tags.
pub open spec fn untagged(y: YamlView) -> YamlView
    decreases y,
{
    match y {
        YamlView::Tagged(_, inner) => untagged(*inner),
        _ => y,
    }
}

/// The position of a string key among the entries of a table.
pub open spec fn key_index(entries: Seq<(YamlView, YamlView)>, key: Seq<char>) -> Option<int>
    decreases entries.len(),
{
    if entries.len() == 0 {
        None
    } else if entries[0].0 == YamlView::Text(key) {
        Some(0)
    } else {
        match key_index(entries.drop_first(), key) {
            Some(i) => Some(i + 1),
            None => None,
        }
    }
}

/// What a document holds under a string key, behind any tags of its own.
pub open spec fn lookup(y: YamlView, key: Seq<char>) -> Option<YamlView> {
    match untagged(y) {
        YamlView::Table(entries) => match key_index(entries, key) {
            Some(i) => Some(entries[i].1),
            None => None,
        },
        _ => None,
    }
}

/// The characters of a string, behind any tags.
pub open spec fn text_of(y: YamlView) -> Option<Seq<char>> {
    match untagged(y) {
        YamlView::Text(s) => Some(s),
        _ => None,
    }
}

/// Where the first entry with this key stands.
pub proof fn lemma_key_index(entries: Seq<(YamlView, YamlView)>, key: Seq<char>, k: int)
    requires
        0 <= k <= entries.len(),
        forall|j: int| 0 <= j < k ==> (#[trigger] entries[j]).0 != YamlView::Text(key),
        k < entries.len() ==> entries[k].0 == YamlView::Text(key),
    ensures
        key_index(entries, key) == (if k < entries.len() {
            Some(k)
        } else {
            None
        }),
    decreases entries.len(),
{
    if entries.len() > 0 && k > 0 {
        let rest = entries.drop_first();
        assert forall|j: int| 0 <= j < k - 1 implies (#[trigger] rest[j]).0 != YamlView::Text(
            key,
        ) by {
            assert(entries[j + 1].0 != YamlView::Text(key));
        }
        lemma_key_index(rest, key, k - 1);
    }
}

/// What the position of a key says.
pub proof fn lemma_key_index_found(entries: Seq<(YamlView, YamlView)>, key: Seq<char>)
    ensures
        match key_index(entries, key) {
            Some(k) => 0 <= k < entries.len() && entries[k].0 == YamlView::Text(key) && forall|
                j: int,
            |
                0 <= j < k ==> (#[trigger] entries[j]).0 != YamlView::Text(key),
            None => forall|j: int|
                0 <= j < entries.len() ==> (#[trigger] entries[j]).0 != YamlView::Text(key),
        },
    decreases entries.len(),
{
    if entries.len() > 0 && entries[0].0 != YamlView::Text(key) {
        let rest = entries.drop_first();
        lemma_key_index_found(rest, key);
        assert forall|j: int| 0 < j < entries.len() && (match key_index(rest, key) {
            Some(k) => j <= k,
            None => true,
        }) implies (#[trigger] entries[j]).0 != YamlView::Text(key) by {
            assert(rest[j - 1].0 != YamlView::Text(key));
        }
    }
}

/// Changing a value leaves every key where it was.
pub proof fn lemma_key_index_after_update(
    entries: Seq<(YamlView, YamlView)>,
    i: int,
    value: YamlView,
    key: Seq<char>,
)
    requires
        0 <= i < entries.len(),
    ensures
        key_index(entries.update(i, (entries[i].0, value)), key) == key_index(entries, key),
{
    let after = entries.update(i, (entries[i].0, value));
    lemma_key_index_found(entries, key);
    assert(forall|j: int| 0 <= j < after.len() ==> (#[trigger] after[j]).0 == entries[j].0);
    match key_index(entries, key) {
        Some(k) => {
            lemma_key_index(after, key, k);
        },
        None => {
            lemma_key_index(after, key, after.len() as int);
        },
    }
}

impl Table {
    /// The position of a string key.
    pub fn find(&self, key: &str) -> (r: Option<usize>)
        ensures
            match r {
                Some(i) => i < self.entries@.len() && key_index(self@, key@) == Some(i as int)
                    && self@[i as int].0 == YamlView::Text(key@),
                None => key_index(self@, key@) is None,
            },
    {
        let mut i: usize = 0;
        while i < self.entries.len()
            invariant
                i <= self.entries@.len(),
                forall|j: int| 0 <= j < i ==> (#[trigger] self@[j]).0 != YamlView::Text(key@),
            decreases self.entries@.len() - i,
        {
            let ghost k = self@[i as int].0;
            if let Yaml::Text(s) = &self.entries[i].0 {
                if same_text(s.as_str(), key) {
                    proof {
                        lemma_key_index(self@, key@, i as int);
                    }
                    return Some(i);
                }
            }
            i = i + 1;
        }
        proof {
            lemma_key_index(self@, key@, i as int);
        }
        None
    }
}

impl Yaml {
    /// Reads a YAML document.
    pub fn parse(text: &str) -> (r: Result<Yaml, serde_yaml::Error>)
        ensures
            match r {
                Ok(y) => yaml_parsed(text@) == Some(y@) && sound(y@),
                Err(_) => yaml_parsed(text@) is None,
            },
    {
        match parse_value(text) {
            Ok(v) => Ok(read_tree(v)),
            Err(e) => Err(e),
        }
    }

    /// Writes a YAML document.
    pub fn emit(self) -> (r: Result<String, serde_yaml::Error>)
        requires
            sound(self@),
        ensures
            match r {
                Ok(s) => yaml_text(self@) == Some(s@),
                Err(_) => yaml_text(self@) is None,
            },
    {
        emit_value(&build_tree(self))
    }

    /// What the document holds under a string key, behind any tags of its own.
    pub fn get(&self, key: &str) -> (r: Option<&Yaml>)
        ensures
            match r {
                Some(v) => lookup(self@, key@) == Some(v@),
                None => lookup(self@, key@) is None,
            },
        decreases self,
    {
        broadcast use lemma_yaml_of_parts;

        match self {
            Yaml::Tagged(t) => t.value.get(key),
            Yaml::Table(t) => match t.find(key) {
                Some(i) => Some(&t.entries[i].1),
                None => None,
            },
            _ => None,
        }
    }

    /// The characters of a string, behind any tags.
    pub fn as_str(&self) -> (r: Option<&str>)
        ensures
            match r {
                Some(s) => text_of(self@) == Some(s@),
                None => text_of(self@) is None,
            },
        decreases self,
    {
        match self {
            Yaml::Tagged(t) => t.value.as_str(),
            Yaml::Text(s) => Some(s.as_str()),
            _ => None,
        }
    }
}

// ── What documents promise ───────────────────────────────────────────────────────────────
/// The shape of a value is that of its parts.
pub proof fn law_shapes(
    b: bool,
    n: serde_yaml::Number,
    s: String,
    items: Vec<Yaml>,
    t: Table,
    tagged: Box<TaggedYaml>,
)
    ensures
        Yaml::Null@ is Null,
        Yaml::Bool(b)@ == YamlView::Bool(b),
        Yaml::Num(n)@ == YamlView::Num(n),
        Yaml::Text(s)@ == YamlView::Text(s@),
        Yaml::List(items)@ matches YamlView::List(parts) && parts.len() == items@.len() && forall|
            i: int,
        |
            0 <= i < parts.len() ==> #[trigger] parts[i] == items@[i]@,
        Yaml::Table(t)@ == YamlView::Table(t@),
        t@.len() == t.entries@.len(),
        forall|i: int|
            0 <= i < t.entries@.len() ==> #[trigger] t@[i] == (
                t.entries@[i].0@,
                t.entries@[i].1@,
            ),
        Yaml::Tagged(tagged)@ == YamlView::Tagged(tagged.tag, Box::new(tagged.value@)),
{
    lemma_yaml_of_parts(Yaml::List(items));
    lemma_yaml_of_parts(Yaml::Table(t));
}

/// One level of a value has the shape that its parts give it.
pub proof fn law_node_shapes(
    b: bool,
    n: serde_yaml::Number,
    s: String,
    items: Vec<serde_yaml::Value>,
    entries: Vec<(serde_yaml::Value, serde_yaml::Value)>,
    tag: serde_yaml::value::Tag,
    v: serde_yaml::Value,
)
    ensures
        node_tree(Node::Null) is Null,
        node_tree(Node::Bool(b)) == YamlView::Bool(b),
        node_tree(Node::Num(n)) == YamlView::Num(n),
        node_tree(Node::Text(s)) == YamlView::Text(s@),
        node_tree(Node::List(items)) matches YamlView::List(parts) && parts.len() == items@.len()
            && forall|i: int| 0 <= i < parts.len() ==> #[trigger] parts[i] == yaml_tree(items@[i]),
        node_tree(Node::Table(entries)) matches YamlView::Table(parts) && parts.len()
            == entries@.len() && forall|i: int|
            0 <= i < parts.len() ==> #[trigger] parts[i] == (
                yaml_tree(entries@[i].0),
                yaml_tree(entries@[i].1),
            ),
        node_tree(Node::Tagged(tag, v)) == YamlView::Tagged(tag, Box::new(yaml_tree(v))),
{
}

/// Tags are looked through, however many, and nothing else is.
pub proof fn law_untagged(tag: serde_yaml::value::Tag, v: YamlView)
    ensures
        untagged(YamlView::Tagged(tag, Box::new(v))) == untagged(v),
        !(v is Tagged) ==> untagged(v) == v,
{
}

/// The characters of a string are found behind tags, and those of nothing else.
pub proof fn law_text_of(tag: serde_yaml::value::Tag, s: Seq<char>, v: YamlView)
    ensures
        text_of(YamlView::Text(s)) == Some(s),
        text_of(YamlView::Tagged(tag, Box::new(v))) == text_of(v),
        !(v is Text) && !(v is Tagged) ==> text_of(v) is None,
{
}

/// A key gives the value that comes with it first, and none where no entry has it. Tags are
/// looked through, and only tables have keys.
pub proof fn law_lookup(
    entries: Seq<(YamlView, YamlView)>,
    key: Seq<char>,
    i: int,
    tag: serde_yaml::value::Tag,
    v: YamlView,
)
    requires
        0 <= i <= entries.len(),
        forall|j: int| 0 <= j < i ==> (#[trigger] entries[j]).0 != YamlView::Text(key),
        i < entries.len() ==> entries[i].0 == YamlView::Text(key),
    ensures
        i < entries.len() ==> key_index(entries, key) == Some(i) && lookup(
            YamlView::Table(entries),
            key,
        ) == Some(entries[i].1),
        i == entries.len() ==> key_index(entries, key) is None && lookup(
            YamlView::Table(entries),
            key,
        ) is None,
        lookup(YamlView::Tagged(tag, Box::new(v)), key) == lookup(v, key),
        !(v is Table) && !(v is Tagged) ==> lookup(v, key) is None,
{
    lemma_key_index(entries, key, i);
}

/// A list can be written if and only if each of its items can.
pub proof fn law_sound_list(v: YamlView)
    requires
        v is List,
    ensures
        sound(v) <==> forall|i: int|
            0 <= i < v->List_0.len() ==> sound(#[trigger] v->List_0[i]),
{
}

/// A document can be written if and only if no table in it has a key twice: a string key only
/// equals the same string.
pub proof fn law_sound(
    entries: Seq<(YamlView, YamlView)>,
    tag: serde_yaml::value::Tag,
    v: YamlView,
)
    ensures
        sound(YamlView::Table(entries)) <==> {
            &&& forall|i: int, j: int|
                0 <= i < j < entries.len() ==> if (#[trigger] entries[i]).0 is Text || (
                #[trigger] entries[j]).0 is Text {
                    entries[i].0 != entries[j].0
                } else {
                    !yaml_equal(entries[i].0, entries[j].0)
                }
            &&& forall|i: int|
                0 <= i < entries.len() ==> sound((#[trigger] entries[i]).0) && sound(entries[i].1)
        },
        sound(YamlView::Tagged(tag, Box::new(v))) <==> sound(v),
        !(v is List) && !(v is Table) && !(v is Tagged) ==> sound(v),
{
    assert forall|a: YamlView, b: YamlView| #[trigger] keys_differ(a, b) == if a is Text || b
        is Text {
        a != b
    } else {
        !yaml_equal(a, b)
    } by {}
    if forall|i: int, j: int|
        0 <= i < j < entries.len() ==> if (#[trigger] entries[i]).0 is Text || (
        #[trigger] entries[j]).0 is Text {
            entries[i].0 != entries[j].0
        } else {
            !yaml_equal(entries[i].0, entries[j].0)
        } {
        assert(distinct_keys(entries));
    }
    if distinct_keys(entries) {
        assert forall|i: int, j: int| 0 <= i < j < entries.len() implies if (
        #[trigger] entries[i]).0 is Text || (#[trigger] entries[j]).0 is Text {
            entries[i].0 != entries[j].0
        } else {
            !yaml_equal(entries[i].0, entries[j].0)
        } by {
            assert(keys_differ(entries[i].0, entries[j].0));
        }
    }
}

} // verus!
