//! Backend-independent key input consumed by the metrics.
use vstd::prelude::*;

use crate::table::TableKey;
use crate::text::{compare_text, lemma_text_lt_transitive, lemma_text_order_antisymmetric,
    lemma_text_order_equal, same_text, text_lt};

verus! {

/// Stable identity and display label for a physical key.
#[derive(Clone, Debug, PartialEq, Eq, Hash)]
pub struct PhysicalKey {
    code: u16,
    label: String,
}

impl View for PhysicalKey {
    type V = (u16, Seq<char>);

    closed spec fn view(&self) -> (u16, Seq<char>) {
        (self.code, self.label@)
    }
}

impl PhysicalKey {
    pub fn new(code: u16, label: &str) -> (r: Self)
        ensures
            r@ == (code, label@),
    {
        PhysicalKey { code, label: label.to_owned() }
    }

    pub fn code(&self) -> (r: u16)
        ensures
            r == self@.0,
    {
        self.code
    }

    pub fn label(&self) -> (r: &str)
        ensures
            r@ == self@.1,
    {
        self.label.as_str()
    }
}

/// Keys are listed by Linux key code, then by label.
pub open spec fn physical_key_lt(a: (u16, Seq<char>), b: (u16, Seq<char>)) -> bool {
    a.0 < b.0 || (a.0 == b.0 && text_lt(a.1, b.1))
}

impl TableKey for PhysicalKey {
    open spec fn key_lt(a: (u16, Seq<char>), b: (u16, Seq<char>)) -> bool {
        physical_key_lt(a, b)
    }

    proof fn lemma_key_lt_irreflexive(a: (u16, Seq<char>)) {
        lemma_text_order_equal(a.1, a.1);
    }

    proof fn lemma_key_lt_transitive(a: (u16, Seq<char>), b: (u16, Seq<char>), c: (u16, Seq<char>)) {
        if a.0 == b.0 && b.0 == c.0 {
            lemma_text_lt_transitive(a.1, b.1, c.1);
        }
    }

    proof fn lemma_key_lt_total(a: (u16, Seq<char>), b: (u16, Seq<char>)) {
        lemma_text_order_equal(a.1, b.1);
        lemma_text_order_antisymmetric(a.1, b.1);
    }

    fn same_key(&self, other: &Self) -> (r: bool) {
        self.code == other.code && same_text(self.label.as_str(), other.label.as_str())
    }

    fn key_less(&self, other: &Self) -> (r: bool) {
        self.code < other.code || (self.code == other.code && compare_text(
            self.label.as_str(),
            other.label.as_str(),
        ) < 0)
    }

    fn copy_key(&self) -> (r: Self) {
        PhysicalKey { code: self.code, label: self.label.clone() }
    }
}

/// Texts are listed in code-point order.
impl TableKey for String {
    open spec fn key_lt(a: Seq<char>, b: Seq<char>) -> bool {
        text_lt(a, b)
    }

    proof fn lemma_key_lt_irreflexive(a: Seq<char>) {
        lemma_text_order_equal(a, a);
    }

    proof fn lemma_key_lt_transitive(a: Seq<char>, b: Seq<char>, c: Seq<char>) {
        lemma_text_lt_transitive(a, b, c);
    }

    proof fn lemma_key_lt_total(a: Seq<char>, b: Seq<char>) {
        lemma_text_order_equal(a, b);
        lemma_text_order_antisymmetric(a, b);
    }

    fn same_key(&self, other: &Self) -> (r: bool) {
        same_text(self.as_str(), other.as_str())
    }

    fn key_less(&self, other: &Self) -> (r: bool) {
        compare_text(self.as_str(), other.as_str()) < 0
    }

    fn copy_key(&self) -> (r: Self) {
        self.clone()
    }
}

/// An ordered pair of texts (a bigram, or deleted and typed text).
#[derive(Clone, Debug, PartialEq, Eq, Hash)]
pub struct TextPair {
    first: String,
    second: String,
}

impl View for TextPair {
    type V = (Seq<char>, Seq<char>);

    closed spec fn view(&self) -> (Seq<char>, Seq<char>) {
        (self.first@, self.second@)
    }
}

impl TextPair {
    pub fn new(first: &str, second: &str) -> (r: Self)
        ensures
            r@ == (first@, second@),
    {
        TextPair { first: first.to_owned(), second: second.to_owned() }
    }

    pub fn from_strings(first: String, second: String) -> (r: Self)
        ensures
            r@ == (first@, second@),
    {
        TextPair { first, second }
    }

    pub fn first(&self) -> (r: &str)
        ensures
            r@ == self@.0,
    {
        self.first.as_str()
    }

    pub fn second(&self) -> (r: &str)
        ensures
            r@ == self@.1,
    {
        self.second.as_str()
    }
}

/// Pairs are listed by their first text, then by their second.
pub open spec fn text_pair_lt(a: (Seq<char>, Seq<char>), b: (Seq<char>, Seq<char>)) -> bool {
    text_lt(a.0, b.0) || (a.0 == b.0 && text_lt(a.1, b.1))
}

impl TableKey for TextPair {
    open spec fn key_lt(a: (Seq<char>, Seq<char>), b: (Seq<char>, Seq<char>)) -> bool {
        text_pair_lt(a, b)
    }

    proof fn lemma_key_lt_irreflexive(a: (Seq<char>, Seq<char>)) {
        lemma_text_order_equal(a.0, a.0);
        lemma_text_order_equal(a.1, a.1);
    }

    proof fn lemma_key_lt_transitive(
        a: (Seq<char>, Seq<char>),
        b: (Seq<char>, Seq<char>),
        c: (Seq<char>, Seq<char>),
    ) {
        if text_lt(a.0, b.0) && text_lt(b.0, c.0) {
            lemma_text_lt_transitive(a.0, b.0, c.0);
        }
        if a.0 == b.0 && b.0 == c.0 {
            lemma_text_order_equal(a.0, a.0);
            lemma_text_lt_transitive(a.1, b.1, c.1);
        }
    }

    proof fn lemma_key_lt_total(a: (Seq<char>, Seq<char>), b: (Seq<char>, Seq<char>)) {
        lemma_text_order_equal(a.0, b.0);
        lemma_text_order_antisymmetric(a.0, b.0);
        lemma_text_order_equal(a.1, b.1);
        lemma_text_order_antisymmetric(a.1, b.1);
    }

    fn same_key(&self, other: &Self) -> (r: bool) {
        same_text(self.first.as_str(), other.first.as_str()) && same_text(
            self.second.as_str(),
            other.second.as_str(),
        )
    }

    fn key_less(&self, other: &Self) -> (r: bool) {
        let c = compare_text(self.first.as_str(), other.first.as_str());
        proof {
            lemma_text_order_equal(self.first@, other.first@);
        }
        c < 0 || (c == 0 && compare_text(self.second.as_str(), other.second.as_str()) < 0)
    }

    fn copy_key(&self) -> (r: Self) {
        TextPair { first: self.first.clone(), second: self.second.clone() }
    }
}

#[derive(Clone, Copy, Debug, PartialEq, Eq, Structural)]
pub enum KeyEventKind {
    Press,
    Release,
    Repeat,
}

#[derive(Clone, Copy, Debug, PartialEq, Eq, Structural)]
pub enum KeyRole {
    Backspace,
    Other,
}

/// UI- and backend-independent input consumed by metrics. The timestamp is
/// in nanoseconds since the Unix epoch.
#[derive(Clone, Debug)]
pub struct KeyEvent {
    key: PhysicalKey,
    text: Option<String>,
    timestamp: u64,
    kind: KeyEventKind,
    role: KeyRole,
}

/// The mathematical value of a [`KeyEvent`].
pub struct KeyEventView {
    pub key: (u16, Seq<char>),
    pub text: Option<Seq<char>>,
    pub timestamp: u64,
    pub kind: KeyEventKind,
    pub role: KeyRole,
}

impl View for KeyEvent {
    type V = KeyEventView;

    closed spec fn view(&self) -> KeyEventView {
        KeyEventView {
            key: self.key@,
            text: match self.text {
                Some(t) => Some(t@),
                None => None,
            },
            timestamp: self.timestamp,
            kind: self.kind,
            role: self.role,
        }
    }
}

impl KeyEvent {
    pub fn new(
        key: PhysicalKey,
        text: Option<String>,
        timestamp: u64,
        kind: KeyEventKind,
        role: KeyRole,
    ) -> (r: Self)
        ensures
            r@.key == key@,
            r@.text == (match text {
                Some(t) => Some(t@),
                None => None::<Seq<char>>,
            }),
            r@.timestamp == timestamp,
            r@.kind == kind,
            r@.role == role,
    {
        KeyEvent { key, text, timestamp, kind, role }
    }

    pub fn key(&self) -> (r: &PhysicalKey)
        ensures
            r@ == self@.key,
    {
        &self.key
    }

    pub fn text(&self) -> (r: Option<&str>)
        ensures
            match r {
                Some(t) => self@.text == Some(t@),
                None => self@.text is None,
            },
    {
        match &self.text {
            Some(t) => Some(t.as_str()),
            None => None,
        }
    }

    pub fn timestamp(&self) -> (r: u64)
        ensures
            r == self@.timestamp,
    {
        self.timestamp
    }

    pub fn kind(&self) -> (r: KeyEventKind)
        ensures
            r == self@.kind,
    {
        self.kind
    }

    pub fn role(&self) -> (r: KeyRole)
        ensures
            r == self@.role,
    {
        self.role
    }
}

} // verus!
