//! Key-value documents: the nested text format in which Steam keeps its state.
//!
//! A document is a tree. A leaf is a piece of text; a block is a list of keys, each
//! with the values that were written under it. The text itself is read by the
//! `keyvalues-parser` crate, which `keyvalues-serde` hands on as its `parser`; what
//! the tree means is decided here.

use crate::decode::{optional, permit, require, required, DecodeError, Failure, Field};
use crate::number::{parse_bool, parse_flag, parse_u64, parse_unsigned, parse_usize};
use keyvalues_serde::parser::Value;
use vstd::prelude::*;

verus! {

/// A document as a mathematical value.
pub enum Tree {
    Text(Seq<char>),
    Block(Seq<Branch>),
}

/// One key of a block with the values written under it, in the order of writing.
pub struct Branch {
    pub key: Seq<char>,
    pub values: Seq<Tree>,
}

/// A document.
#[derive(Debug)]
pub enum Node {
    Text(String),
    Block(Vec<Entry>),
}

/// One key of a block with the values written under it.
#[derive(Debug)]
pub struct Entry {
    pub key: String,
    pub values: Vec<Node>,
}

impl Node {
    /// The tree that this document is.
    pub open spec fn model(self) -> Tree
        decreases self,
    {
        match self {
            Node::Text(s) => Tree::Text(s@),
            Node::Block(entries) => Tree::Block(
                Seq::new(
                    entries@.len(),
                    |i: int|
                        if 0 <= i < entries@.len() {
                            entries@[i].model()
                        } else {
                            arbitrary()
                        },
                ),
            ),
        }
    }
}

impl Entry {
    /// The branch that this entry is.
    pub open spec fn model(self) -> Branch
        decreases self,
    {
        Branch {
            key: self.key@,
            values: Seq::new(
                self.values@.len(),
                |j: int|
                    if 0 <= j < self.values@.len() {
                        self.values@[j].model()
                    } else {
                        arbitrary()
                    },
            ),
        }
    }
}

/// The trees of a list of documents.
pub open spec fn node_models(nodes: Seq<Node>) -> Seq<Tree> {
    nodes.map_values(|n: Node| n.model())
}

/// The branches of a list of entries.
pub open spec fn entry_models(entries: Seq<Entry>) -> Seq<Branch> {
    entries.map_values(|e: Entry| e.model())
}

/// A block is modelled entry by entry, an entry value by value.
pub proof fn lemma_models(node: Node)
    ensures
        node matches Node::Block(entries) ==> node.model() == Tree::Block(entry_models(entries@)),
{
    if let Node::Block(entries) = node {
        assert(node.model()->Block_0 =~= entry_models(entries@));
    }
}

/// An entry is modelled value by value.
pub proof fn lemma_entry_model(entry: Entry)
    ensures
        entry.model() == (Branch { key: entry.key@, values: node_models(entry.values@) }),
{
    assert(entry.model().values =~= node_models(entry.values@));
}

/// `keyvalues_parser::Value`: a parsed value. Nothing is known of what is inside but
/// through the functions below.
#[verifier::external_type_specification]
#[verifier::external_body]
pub struct ExValue<'a>(keyvalues_serde::parser::Value<'a>);

/// The tree that a value of the parser holds.
pub uninterp spec fn value_tree(v: Value<'_>) -> Tree;

/// The value under the top-level key of the document written in `text`, where the
/// grammar of documents accepts `text`.
pub uninterp spec fn parsed_root(text: Seq<char>) -> Option<Tree>;

/// The branches that a listing of a parser's block stands for.
pub open spec fn listed_branches(listing: Seq<(&str, &Vec<Value<'_>>)>) -> Seq<Branch> {
    listing.map_values(
        |e: (&str, &Vec<Value<'_>>)|
            Branch { key: e.0@, values: e.1@.map_values(|v: Value<'_>| value_tree(v)) },
    )
}

/// Calls `keyvalues_parser::parse`, which reads a whole document with escape
/// sequences, and keeps the value under the top-level key; an error is handed on as
/// its message. The contract claims that a value that comes back is the one that the
/// grammar gives for the text. It claims nothing of a failure: the parser also gives
/// up where the stack of the calling thread runs short or a limit on its calls is
/// reached, so a text may fail in one call and be read in another.
#[verifier::external_body]
fn parse_root(text: &str) -> (r: Result<Value<'_>, String>)
    ensures
        r is Ok ==> parsed_root(text@) is Some && value_tree(r->Ok_0) == parsed_root(text@)->0,
{
    keyvalues_serde::parser::parse(text).map(|vdf| vdf.value).map_err(|e| e.to_string())
}

/// Calls `keyvalues_parser::Value::get_str`: the text of a leaf, nothing for a block.
#[verifier::external_body]
fn value_text<'a>(v: &'a Value<'_>) -> (r: Option<&'a str>)
    ensures
        match value_tree(*v) {
            Tree::Text(s) => r is Some && r->0@ == s,
            Tree::Block(_) => r is None,
        },
{
    v.get_str()
}

/// Calls `keyvalues_parser::Value::get_obj` and lists the block's map: each key with
/// its values, in the map's order. Nothing for a leaf.
#[verifier::external_body]
fn value_entries<'a, 'b>(v: &'a Value<'b>) -> (r: Option<Vec<(&'a str, &'a Vec<Value<'a>>)>>)
    ensures
        match value_tree(*v) {
            Tree::Text(_) => r is None,
            Tree::Block(branches) => r is Some && listed_branches(r->0@) == branches,
        },
{
    v.get_obj().map(|obj| obj.iter().map(|(key, values)| (key.as_ref(), values)).collect())
}

/// Copies a value of the parser into a document.
fn node_of(v: &Value<'_>) -> (n: Node)
    ensures
        n.model() == value_tree(*v),
    decreases value_tree(*v),
{
    match value_text(v) {
        Some(s) => Node::Text(s.to_owned()),
        None => {
            let listing = value_entries(v).unwrap();
            let ghost branches = value_tree(*v)->Block_0;
            let mut entries: Vec<Entry> = Vec::new();
            let mut i: usize = 0;
            while i < listing.len()
                invariant
                    value_tree(*v) == Tree::Block(branches),
                    listed_branches(listing@) == branches,
                    0 <= i <= listing@.len(),
                    entry_models(entries@) == branches.take(i as int),
                decreases listing@.len() - i,
            {
                let key: &str = listing[i].0;
                let values: &Vec<Value<'_>> = listing[i].1;
                let ghost branch = branches[i as int];
                assert(branch == listed_branches(listing@)[i as int]);
                let mut nodes: Vec<Node> = Vec::new();
                let mut j: usize = 0;
                while j < values.len()
                    invariant
                        value_tree(*v) == Tree::Block(branches),
                        0 <= i < branches.len(),
                        branch == branches[i as int],
                        branch.values == values@.map_values(|x: Value<'_>| value_tree(x)),
                        0 <= j <= values@.len(),
                        node_models(nodes@) == branch.values.take(j as int),
                    decreases values@.len() - j,
                {
                    let ghost child = value_tree(values@[j as int]);
                    proof {
                        assert(child == branch.values[j as int]);
                        assert(decreases_to!(value_tree(*v) => value_tree(*v)->Block_0));
                        assert(decreases_to!(branches => branches[i as int]));
                        assert(decreases_to!(branch => branch.values));
                        assert(decreases_to!(branch.values => branch.values[j as int]));
                        assert(decreases_to!(value_tree(*v) => child));
                    }
                    let node = node_of(&values[j]);
                    proof {
                        assert(branch.values.take(j + 1) =~= branch.values.take(j as int).push(
                            child,
                        ));
                        assert(node_models(nodes@.push(node)) =~= node_models(nodes@).push(
                            node.model(),
                        ));
                    }
                    nodes.push(node);
                    j = j + 1;
                }
                let entry = Entry { key: key.to_owned(), values: nodes };
                proof {
                    assert(branch.values.take(j as int) =~= branch.values);
                    lemma_entry_model(entry);
                    assert(entry.model() == branch);
                    assert(branches.take(i + 1) =~= branches.take(i as int).push(branch));
                    assert(entry_models(entries@.push(entry)) =~= entry_models(entries@).push(
                        entry.model(),
                    ));
                }
                entries.push(entry);
                i = i + 1;
            }
            let node = Node::Block(entries);
            proof {
                assert(branches.take(i as int) =~= branches);
                lemma_models(node);
            }
            node
        },
    }
}

/// Reads the document written in `text` and gives the value under its top-level key.
///
/// A document that comes back is the one that the text denotes. A failure carries
/// the parser's message; the parser may also fail on a text that denotes a document,
/// where it runs out of stack.
pub fn parse_document(text: &str) -> (r: Result<Node, String>)
    ensures
        r is Ok ==> parsed_root(text@) == Some(r->Ok_0.model()),
{
    match parse_root(text) {
        Ok(v) => Ok(node_of(&v)),
        Err(message) => Err(message),
    }
}

/// A character without regard to its case: an ASCII capital counts as its small
/// letter, every other character as itself.
pub open spec fn folded(c: char) -> u32 {
    if 65 <= c as u32 <= 90 {
        (c as u32 + 32) as u32
    } else {
        c as u32
    }
}

/// Whether two keys are the same. Keys do not depend on the case of ASCII letters.
pub open spec fn same_key(a: Seq<char>, b: Seq<char>) -> bool {
    a.len() == b.len() && forall|i: int|
        0 <= i < a.len() ==> folded(#[trigger] a[i]) == folded(b[i])
}

/// How many branches have the key `key`, in whatever case it is written.
pub open spec fn occurrences(branches: Seq<Branch>, key: Seq<char>) -> nat
    decreases branches.len(),
{
    if branches.len() == 0 {
        0
    } else {
        occurrences(branches.drop_last(), key) + if same_key(branches.last().key, key) {
            1nat
        } else {
            0nat
        }
    }
}

/// The values of the first branch that has the key `key`.
pub open spec fn lookup(branches: Seq<Branch>, key: Seq<char>) -> Option<Seq<Tree>>
    decreases branches.len(),
{
    if branches.len() == 0 {
        None
    } else {
        match lookup(branches.drop_last(), key) {
            Some(values) => Some(values),
            None => if same_key(branches.last().key, key) {
                Some(branches.last().values)
            } else {
                None
            },
        }
    }
}

/// What a block holds under `key`: the values of the one branch that has this key.
/// A key that two branches have, be it in two spellings that differ in case only, is
/// malformed: neither branch is preferred.
pub open spec fn held(branches: Seq<Branch>, key: Seq<char>) -> Field<Seq<Tree>> {
    if occurrences(branches, key) == 0 {
        Field::Absent
    } else if occurrences(branches, key) == 1 {
        match lookup(branches, key) {
            Some(values) => Field::Value(values),
            None => Field::Malformed,
        }
    } else {
        Field::Malformed
    }
}

/// The text written under `key`: present where one branch has the key, with exactly
/// one value, and that value is a leaf.
pub open spec fn text_field(branches: Seq<Branch>, key: Seq<char>) -> Field<Seq<char>> {
    match held(branches, key) {
        Field::Absent => Field::Absent,
        Field::Malformed => Field::Malformed,
        Field::Value(values) => if values.len() == 1 && values[0] is Text {
            Field::Value(values[0]->Text_0)
        } else {
            Field::Malformed
        },
    }
}

/// The block written under `key`: present where one branch has the key, with exactly
/// one value, and that value is a block.
pub open spec fn block_field(branches: Seq<Branch>, key: Seq<char>) -> Field<Seq<Branch>> {
    match held(branches, key) {
        Field::Absent => Field::Absent,
        Field::Malformed => Field::Malformed,
        Field::Value(values) => if values.len() == 1 && values[0] is Block {
            Field::Value(values[0]->Block_0)
        } else {
            Field::Malformed
        },
    }
}

/// The unsigned number of at most `max` written under `key`.
pub open spec fn unsigned_field(branches: Seq<Branch>, key: Seq<char>, max: nat) -> Field<nat> {
    match text_field(branches, key) {
        Field::Absent => Field::Absent,
        Field::Malformed => Field::Malformed,
        Field::Value(s) => match parse_unsigned(s, max) {
            Some(n) => Field::Value(n),
            None => Field::Malformed,
        },
    }
}

/// The 64-bit number written under `key`.
pub open spec fn u64_field(branches: Seq<Branch>, key: Seq<char>) -> Field<u64> {
    match unsigned_field(branches, key, u64::MAX as nat) {
        Field::Absent => Field::Absent,
        Field::Malformed => Field::Malformed,
        Field::Value(n) => Field::Value(n as u64),
    }
}

/// The word-sized number written under `key`.
pub open spec fn usize_field(branches: Seq<Branch>, key: Seq<char>) -> Field<usize> {
    match unsigned_field(branches, key, usize::MAX as nat) {
        Field::Absent => Field::Absent,
        Field::Malformed => Field::Malformed,
        Field::Value(n) => Field::Value(n as usize),
    }
}

/// The flag written under `key`.
pub open spec fn flag_field(branches: Seq<Branch>, key: Seq<char>) -> Field<bool> {
    match text_field(branches, key) {
        Field::Absent => Field::Absent,
        Field::Malformed => Field::Malformed,
        Field::Value(s) => match parse_flag(s) {
            Some(b) => Field::Value(b),
            None => Field::Malformed,
        },
    }
}

/// The one value of a key, where it has exactly one.
pub open spec fn single(values: Seq<Tree>) -> Option<Tree> {
    if values.len() == 1 {
        Some(values[0])
    } else {
        None
    }
}

/// The entries of a block; nothing for a piece of text.
pub fn block_entries(node: &Node) -> (r: Option<&Vec<Entry>>)
    ensures
        match node.model() {
            Tree::Text(_) => r is None,
            Tree::Block(branches) => r is Some && entry_models(r->0@) == branches,
        },
{
    proof {
        lemma_models(*node);
    }
    match node {
        Node::Text(_) => None,
        Node::Block(entries) => Some(entries),
    }
}

/// The text of a leaf; nothing for a block.
pub fn leaf_text(node: &Node) -> (r: Option<&str>)
    ensures
        match node.model() {
            Tree::Text(s) => r is Some && r->0@ == s,
            Tree::Block(_) => r is None,
        },
{
    match node {
        Node::Text(s) => Some(s.as_str()),
        Node::Block(_) => None,
    }
}

/// The one value of an entry, where it has exactly one.
pub fn single_value(entry: &Entry) -> (r: Option<&Node>)
    ensures
        match single(entry.model().values) {
            Some(t) => r is Some && r->0.model() == t,
            None => r is None,
        },
{
    proof {
        lemma_entry_model(*entry);
    }
    if entry.values.len() == 1 {
        Some(&entry.values[0])
    } else {
        None
    }
}

/// The characters of a text.
fn chars_of(s: &str) -> (v: Vec<char>)
    ensures
        v@ == s@,
{
    let mut v: Vec<char> = Vec::new();
    for c in it: s.chars()
        invariant
            it.seq() == s@,
            v@ == s@.take(it.index() as int),
    {
        proof {
            assert(s@.take(it.index() + 1) =~= s@.take(it.index() as int).push(c));
        }
        v.push(c);
    }
    proof {
        assert(s@.take(s@.len() as int) =~= s@);
    }
    v
}

/// A character without regard to its case.
fn fold(c: char) -> (r: u32)
    ensures
        r == folded(c),
{
    let code: u32 = c as u32;
    if 65 <= code && code <= 90 {
        code + 32
    } else {
        code
    }
}

/// Whether `key` is the key `wanted`.
fn key_matches(key: &str, wanted: &Vec<char>) -> (r: bool)
    ensures
        r == same_key(key@, wanted@),
{
    let mut i: usize = 0;
    for c in it: key.chars()
        invariant
            it.seq() == key@,
            i == it.index(),
            i <= wanted@.len(),
            forall|j: int| 0 <= j < i ==> folded(#[trigger] key@[j]) == folded(wanted@[j]),
    {
        if i >= wanted.len() {
            return false;
        }
        if fold(c) != fold(wanted[i]) {
            return false;
        }
        i = i + 1;
    }
    i == wanted.len()
}

/// What the block holds under `key`.
pub fn find<'a>(entries: &'a Vec<Entry>, key: &str) -> (r: Field<&'a Vec<Node>>)
    ensures
        match held(entry_models(entries@), key@) {
            Field::Absent => r is Absent,
            Field::Malformed => r is Malformed,
            Field::Value(values) => r is Value && node_models(r->Value_0@) == values,
        },
{
    let wanted: Vec<char> = chars_of(key);
    let ghost branches = entry_models(entries@);
    let mut first: Option<&'a Vec<Node>> = None;
    let mut count: usize = 0;
    let mut i: usize = 0;
    proof {
        assert(branches.take(0) =~= Seq::<Branch>::empty());
    }
    while i < entries.len()
        invariant
            0 <= i <= entries@.len(),
            wanted@ == key@,
            branches == entry_models(entries@),
            count <= i,
            count == occurrences(branches.take(i as int), key@),
            match lookup(branches.take(i as int), key@) {
                Some(values) => first is Some && node_models(first->0@) == values,
                None => first is None,
            },
        decreases entries@.len() - i,
    {
        proof {
            lemma_entry_model(entries@[i as int]);
            assert(branches.take(i + 1).drop_last() =~= branches.take(i as int));
            assert(branches.take(i + 1).last() == branches[i as int]);
        }
        if key_matches(entries[i].key.as_str(), &wanted) {
            count = count + 1;
            if first.is_none() {
                first = Some(&entries[i].values);
            }
        }
        i = i + 1;
    }
    proof {
        assert(branches.take(i as int) =~= branches);
    }
    if count == 0 {
        Field::Absent
    } else if count == 1 {
        match first {
            Some(values) => Field::Value(values),
            None => Field::Malformed,
        }
    } else {
        Field::Malformed
    }
}

/// The text written under `key`.
pub fn field_text<'a>(entries: &'a Vec<Entry>, key: &str) -> (r: Field<&'a str>)
    ensures
        match text_field(entry_models(entries@), key@) {
            Field::Absent => r is Absent,
            Field::Malformed => r is Malformed,
            Field::Value(s) => r is Value && r->Value_0@ == s,
        },
{
    match find(entries, key) {
        Field::Absent => Field::Absent,
        Field::Malformed => Field::Malformed,
        Field::Value(values) => {
            if values.len() != 1 {
                return Field::Malformed;
            }
            assert(node_models(values@)[0] == values@[0].model());
            match leaf_text(&values[0]) {
                Some(s) => Field::Value(s),
                None => Field::Malformed,
            }
        },
    }
}

/// The block written under `key`.
pub fn field_block<'a>(entries: &'a Vec<Entry>, key: &str) -> (r: Field<&'a Vec<Entry>>)
    ensures
        match block_field(entry_models(entries@), key@) {
            Field::Absent => r is Absent,
            Field::Malformed => r is Malformed,
            Field::Value(branches) => r is Value && entry_models(r->Value_0@) == branches,
        },
{
    match find(entries, key) {
        Field::Absent => Field::Absent,
        Field::Malformed => Field::Malformed,
        Field::Value(values) => {
            if values.len() != 1 {
                return Field::Malformed;
            }
            assert(node_models(values@)[0] == values@[0].model());
            match block_entries(&values[0]) {
                Some(inner) => Field::Value(inner),
                None => Field::Malformed,
            }
        },
    }
}

/// The 64-bit number written under `key`.
pub fn field_u64(entries: &Vec<Entry>, key: &str) -> (r: Field<u64>)
    ensures
        r == u64_field(entry_models(entries@), key@),
{
    match field_text(entries, key) {
        Field::Absent => Field::Absent,
        Field::Malformed => Field::Malformed,
        Field::Value(s) => match parse_u64(s) {
            Some(n) => Field::Value(n),
            None => Field::Malformed,
        },
    }
}

/// The word-sized number written under `key`.
pub fn field_usize(entries: &Vec<Entry>, key: &str) -> (r: Field<usize>)
    ensures
        r == usize_field(entry_models(entries@), key@),
{
    match field_text(entries, key) {
        Field::Absent => Field::Absent,
        Field::Malformed => Field::Malformed,
        Field::Value(s) => match parse_usize(s) {
            Some(n) => Field::Value(n),
            None => Field::Malformed,
        },
    }
}

/// The flag written under `key`.
pub fn field_flag(entries: &Vec<Entry>, key: &str) -> (r: Field<bool>)
    ensures
        r == flag_field(entry_models(entries@), key@),
{
    match field_text(entries, key) {
        Field::Absent => Field::Absent,
        Field::Malformed => Field::Malformed,
        Field::Value(s) => match parse_bool(s) {
            Some(b) => Field::Value(b),
            None => Field::Malformed,
        },
    }
}

/// The text that a record must have under `key`.
pub open spec fn required_text(branches: Seq<Branch>, key: Seq<char>) -> Result<
    Seq<char>,
    Failure,
> {
    required(text_field(branches, key), key)
}

/// The 64-bit number that a record must have under `key`.
pub open spec fn required_u64(branches: Seq<Branch>, key: Seq<char>) -> Result<u64, Failure> {
    required(u64_field(branches, key), key)
}

/// The word-sized number that a record must have under `key`.
pub open spec fn required_usize(branches: Seq<Branch>, key: Seq<char>) -> Result<usize, Failure> {
    required(usize_field(branches, key), key)
}

/// The flag that a record must have under `key`.
pub open spec fn required_flag(branches: Seq<Branch>, key: Seq<char>) -> Result<bool, Failure> {
    required(flag_field(branches, key), key)
}

/// The text that a record may have under `key`.
pub open spec fn optional_text(branches: Seq<Branch>, key: Seq<char>) -> Result<
    Option<Seq<char>>,
    Failure,
> {
    optional(text_field(branches, key), key)
}

/// The 64-bit number that a record may have under `key`.
pub open spec fn optional_u64(branches: Seq<Branch>, key: Seq<char>) -> Result<
    Option<u64>,
    Failure,
> {
    optional(u64_field(branches, key), key)
}

/// The word-sized number that a record may have under `key`.
pub open spec fn optional_usize(branches: Seq<Branch>, key: Seq<char>) -> Result<
    Option<usize>,
    Failure,
> {
    optional(usize_field(branches, key), key)
}

/// Reads the text that a record must have under `name`.
pub fn need_text(entries: &Vec<Entry>, name: &'static str) -> (r: Result<String, DecodeError>)
    ensures
        match required_text(entry_models(entries@), name@) {
            Ok(text) => r is Ok && r->Ok_0@ == text,
            Err(e) => r is Err && r->Err_0@ == e,
        },
{
    match require(field_text(entries, name), name) {
        Ok(text) => Ok(text.to_owned()),
        Err(e) => Err(e),
    }
}

/// Reads the 64-bit number that a record must have under `name`.
pub fn need_u64(entries: &Vec<Entry>, name: &'static str) -> (r: Result<u64, DecodeError>)
    ensures
        match required_u64(entry_models(entries@), name@) {
            Ok(n) => r == Ok::<u64, DecodeError>(n),
            Err(e) => r is Err && r->Err_0@ == e,
        },
{
    require(field_u64(entries, name), name)
}

/// Reads the word-sized number that a record must have under `name`.
pub fn need_usize(entries: &Vec<Entry>, name: &'static str) -> (r: Result<usize, DecodeError>)
    ensures
        match required_usize(entry_models(entries@), name@) {
            Ok(n) => r == Ok::<usize, DecodeError>(n),
            Err(e) => r is Err && r->Err_0@ == e,
        },
{
    require(field_usize(entries, name), name)
}

/// Reads the flag that a record must have under `name`.
pub fn need_flag(entries: &Vec<Entry>, name: &'static str) -> (r: Result<bool, DecodeError>)
    ensures
        match required_flag(entry_models(entries@), name@) {
            Ok(b) => r == Ok::<bool, DecodeError>(b),
            Err(e) => r is Err && r->Err_0@ == e,
        },
{
    require(field_flag(entries, name), name)
}

/// Reads the text that a record may have under `name`.
pub fn maybe_text(entries: &Vec<Entry>, name: &'static str) -> (r: Result<
    Option<String>,
    DecodeError,
>)
    ensures
        match optional_text(entry_models(entries@), name@) {
            Ok(Some(text)) => r is Ok && r->Ok_0 is Some && r->Ok_0->0@ == text,
            Ok(None) => r is Ok && r->Ok_0 is None,
            Err(e) => r is Err && r->Err_0@ == e,
        },
{
    match permit(field_text(entries, name), name) {
        Ok(Some(text)) => Ok(Some(text.to_owned())),
        Ok(None) => Ok(None),
        Err(e) => Err(e),
    }
}

/// Reads the 64-bit number that a record may have under `name`.
pub fn maybe_u64(entries: &Vec<Entry>, name: &'static str) -> (r: Result<Option<u64>, DecodeError>)
    ensures
        match optional_u64(entry_models(entries@), name@) {
            Ok(n) => r == Ok::<Option<u64>, DecodeError>(n),
            Err(e) => r is Err && r->Err_0@ == e,
        },
{
    permit(field_u64(entries, name), name)
}

/// Reads the word-sized number that a record may have under `name`.
pub fn maybe_usize(entries: &Vec<Entry>, name: &'static str) -> (r: Result<
    Option<usize>,
    DecodeError,
>)
    ensures
        match optional_usize(entry_models(entries@), name@) {
            Ok(n) => r == Ok::<Option<usize>, DecodeError>(n),
            Err(e) => r is Err && r->Err_0@ == e,
        },
{
    permit(field_usize(entries, name), name)
}

} // verus!
