//! The verse document: a base text and three label-keyed sections, each kept
//! as an association list in strictly increasing label order.
use vstd::prelude::*;
use crate::text::{text_less, text_lt, lemma_text_less_total,
    lemma_text_less_transitive};

verus! {

/// Labels in strictly increasing order (so also without repeats).
pub open spec fn sorted_labels(l: Seq<Seq<char>>) -> bool {
    forall|i: int, j: int| 0 <= i < j < l.len() ==> text_less(#[trigger] l[i], #[trigger] l[j])
}

/// The labels of an association list, in order.
pub open spec fn labels_of<V>(s: Seq<(Seq<char>, V)>) -> Seq<Seq<char>> {
    s.map_values(|e: (Seq<char>, V)| e.0)
}

/// The position at which `k` belongs in the sorted labels `l`: the number of
/// labels that precede it.
pub open spec fn lower_bound(l: Seq<Seq<char>>, k: Seq<char>) -> nat
    decreases l.len(),
{
    if l.len() == 0 {
        0
    } else if text_less(l.last(), k) {
        l.len()
    } else {
        lower_bound(l.drop_last(), k)
    }
}

/// What inserting `k => v` into a sorted association list gives: the value of
/// an existing entry with label `k` is replaced, otherwise a new entry is put
/// at the place that keeps the labels sorted.
pub open spec fn assoc_insert<V>(s: Seq<(Seq<char>, V)>, k: Seq<char>, v: V) -> Seq<(Seq<char>, V)> {
    let p = lower_bound(labels_of(s), k) as int;
    if p < s.len() && s[p].0 == k {
        s.update(p, (k, v))
    } else {
        s.insert(p, (k, v))
    }
}

/// The mathematical value of a document.
pub struct VerseContextView {
    pub juxta: Seq<char>,
    pub translations: Seq<(Seq<char>, Seq<char>)>,
    pub notes: Seq<(Seq<char>, Seq<Seq<char>>)>,
    pub snippets: Seq<(Seq<char>, Seq<Seq<char>>)>,
}

impl VerseContextView {
    pub open spec fn wf(self) -> bool {
        &&& sorted_labels(labels_of(self.translations))
        &&& sorted_labels(labels_of(self.notes))
        &&& sorted_labels(labels_of(self.snippets))
    }
}

/// The document the prompts are built from: the base (juxtalinear) text,
/// translations by label, verse notes by label and word notes by word.
pub struct VerseContext {
    juxta: String,
    translations: Vec<(String, String)>,
    notes: Vec<(String, Vec<String>)>,
    snippets: Vec<(String, Vec<String>)>,
}

pub open spec fn notes_view(v: Vec<String>) -> Seq<Seq<char>> {
    v@.map_values(|n: String| n@)
}

/// The value of a list of translation entries.
pub open spec fn translation_entries(v: Seq<(String, String)>) -> Seq<(Seq<char>, Seq<char>)> {
    v.map_values(|e: (String, String)| (e.0@, e.1@))
}

/// The value of a list of note entries.
pub open spec fn note_entries(v: Seq<(String, Vec<String>)>) -> Seq<(Seq<char>, Seq<Seq<char>>)> {
    v.map_values(|e: (String, Vec<String>)| (e.0@, notes_view(e.1)))
}

impl View for VerseContext {
    type V = VerseContextView;

    closed spec fn view(&self) -> VerseContextView {
        VerseContextView {
            juxta: self.juxta@,
            translations: translation_entries(self.translations@),
            notes: note_entries(self.notes@),
            snippets: note_entries(self.snippets@),
        }
    }
}

impl VerseContext {
    /// A document with the given base text and no translations or notes.
    pub fn new(juxta: String) -> (r: VerseContext)
        ensures
            r@.wf(),
            r@.juxta == juxta@,
            r@.translations.len() == 0,
            r@.notes.len() == 0,
            r@.snippets.len() == 0,
    {
        let r = VerseContext {
            juxta,
            translations: Vec::new(),
            notes: Vec::new(),
            snippets: Vec::new(),
        };
        proof {
            assert(labels_of(r@.translations) =~= Seq::empty());
            assert(labels_of(r@.notes) =~= Seq::empty());
            assert(labels_of(r@.snippets) =~= Seq::empty());
        }
        r
    }

    /// The base text.
    pub fn juxta(&self) -> (r: &String)
        ensures
            r@ == self@.juxta,
    {
        &self.juxta
    }

    /// The translations, in label order.
    pub fn translations(&self) -> (r: &Vec<(String, String)>)
        ensures
            translation_entries(r@) == self@.translations,
    {
        &self.translations
    }

    /// The verse notes, in label order.
    pub fn notes(&self) -> (r: &Vec<(String, Vec<String>)>)
        ensures
            note_entries(r@) == self@.notes,
    {
        &self.notes
    }

    /// The word notes, in order of the words they are on.
    pub fn snippets(&self) -> (r: &Vec<(String, Vec<String>)>)
        ensures
            note_entries(r@) == self@.snippets,
    {
        &self.snippets
    }

    /// Sets the text of the translation labelled `label`, replacing an
    /// earlier text under the same label.
    pub fn insert_translation(&mut self, label: String, text: String)
        requires
            old(self)@.wf(),
        ensures
            final(self)@.wf(),
            final(self)@ == (VerseContextView {
                translations: assoc_insert(old(self)@.translations, label@, text@),
                ..old(self)@
            }),
    {
        let ghost s = self@.translations;
        proof {
            assert(labels_of(s) =~= self.translations@.map_values(|e: (String, String)| e.0@));
        }
        let (p, found) = find_slot(&self.translations, label.as_str());
        let ghost e = (label@, text@);
        if found {
            self.translations.set(p, (label, text));
            proof {
                assert(self@.translations =~= s.update(p as int, e));
                assert(labels_of(self@.translations) =~= labels_of(s));
            }
        } else {
            self.translations.insert(p, (label, text));
            proof {
                assert(self@.translations =~= s.insert(p as int, e));
                assert(labels_of(self@.translations) =~= labels_of(s).insert(p as int, e.0));
                lemma_insert_keeps_sorted(labels_of(s), e.0);
            }
        }
    }

    /// Sets the verse notes under `label`, replacing earlier notes under the
    /// same label.
    pub fn insert_notes(&mut self, label: String, notes: Vec<String>)
        requires
            old(self)@.wf(),
        ensures
            final(self)@.wf(),
            final(self)@ == (VerseContextView {
                notes: assoc_insert(old(self)@.notes, label@, notes_view(notes)),
                ..old(self)@
            }),
    {
        let ghost s = self@.notes;
        proof {
            assert(labels_of(s) =~= self.notes@.map_values(|e: (String, Vec<String>)| e.0@));
        }
        let (p, found) = find_slot(&self.notes, label.as_str());
        let ghost e = (label@, notes_view(notes));
        if found {
            self.notes.set(p, (label, notes));
            proof {
                assert(self@.notes =~= s.update(p as int, e));
                assert(labels_of(self@.notes) =~= labels_of(s));
            }
        } else {
            self.notes.insert(p, (label, notes));
            proof {
                assert(self@.notes =~= s.insert(p as int, e));
                assert(labels_of(self@.notes) =~= labels_of(s).insert(p as int, e.0));
                lemma_insert_keeps_sorted(labels_of(s), e.0);
            }
        }
    }

    /// Sets the notes on the word or words `words`, replacing earlier notes
    /// on the same words.
    pub fn insert_snippet(&mut self, words: String, notes: Vec<String>)
        requires
            old(self)@.wf(),
        ensures
            final(self)@.wf(),
            final(self)@ == (VerseContextView {
                snippets: assoc_insert(old(self)@.snippets, words@, notes_view(notes)),
                ..old(self)@
            }),
    {
        let ghost s = self@.snippets;
        proof {
            assert(labels_of(s) =~= self.snippets@.map_values(|e: (String, Vec<String>)| e.0@));
        }
        let (p, found) = find_slot(&self.snippets, words.as_str());
        let ghost e = (words@, notes_view(notes));
        if found {
            self.snippets.set(p, (words, notes));
            proof {
                assert(self@.snippets =~= s.update(p as int, e));
                assert(labels_of(self@.snippets) =~= labels_of(s));
            }
        } else {
            self.snippets.insert(p, (words, notes));
            proof {
                assert(self@.snippets =~= s.insert(p as int, e));
                assert(labels_of(self@.snippets) =~= labels_of(s).insert(p as int, e.0));
                lemma_insert_keeps_sorted(labels_of(s), e.0);
            }
        }
    }
}

/// `lower_bound` is the first place whose label does not precede `k`.
proof fn lemma_lower_bound(l: Seq<Seq<char>>, k: Seq<char>, p: int)
    requires
        sorted_labels(l),
        0 <= p <= l.len(),
        forall|i: int| 0 <= i < p ==> text_less(#[trigger] l[i], k),
        p == l.len() || !text_less(l[p], k),
    ensures
        lower_bound(l, k) == p,
    decreases l.len(),
{
    if l.len() > 0 {
        if p == l.len() {
            assert(text_less(l[l.len() - 1], k));
        } else {
            if text_less(l.last(), k) {
                if p < l.len() - 1 {
                    lemma_text_less_transitive(l[p], l.last(), k);
                }
            }
            lemma_lower_bound(l.drop_last(), k, p);
        }
    }
}

/// Finds where `label` belongs among the sorted labels of `entries`, and
/// whether an entry with that label is already there.
fn find_slot<V>(entries: &Vec<(String, V)>, label: &str) -> (r: (usize, bool))
    requires
        sorted_labels(entries@.map_values(|e: (String, V)| e.0@)),
    ensures
        r.0 == lower_bound(entries@.map_values(|e: (String, V)| e.0@), label@),
        r.0 <= entries@.len(),
        r.1 == (r.0 < entries@.len() && entries@[r.0 as int].0@ == label@),
{
    let ghost l = entries@.map_values(|e: (String, V)| e.0@);
    let mut p: usize = 0;
    let mut reached = false;
    while p < entries.len() && !reached
        invariant
            reached ==> p < l.len() && !text_less(l[p as int], label@),
            l == entries@.map_values(|e: (String, V)| e.0@),
            sorted_labels(l),
            p <= entries@.len(),
            forall|i: int| 0 <= i < p ==> text_less(#[trigger] l[i], label@),
        decreases entries@.len() - p + (if reached { 0int } else { 1int }),
    {
        if text_lt(entries[p].0.as_str(), label) {
            p = p + 1;
        } else {
            reached = true;
        }
    }
    proof {
        lemma_lower_bound(l, label@, p as int);
    }
    let found = p < entries.len() && entries[p].0 == label.to_owned();
    (p, found)
}

/// Inserting at `lower_bound` keeps labels sorted.
proof fn lemma_insert_keeps_sorted(l: Seq<Seq<char>>, k: Seq<char>)
    requires
        sorted_labels(l),
        lower_bound(l, k) == l.len() || l[lower_bound(l, k) as int] != k,
    ensures
        lower_bound(l, k) <= l.len(),
        sorted_labels(l.insert(lower_bound(l, k) as int, k)),
{
    let p = lower_bound_facts(l, k);
    let n = l.insert(p, k);
    assert forall|i: int, j: int| 0 <= i < j < n.len() implies text_less(#[trigger] n[i], #[trigger] n[j]) by {
        if p < l.len() {
            lemma_text_less_total(l[p], k);
        }
        if j < p || i > p {
        } else if i == p {
            if j > p + 1 {
                lemma_text_less_transitive(k, l[p], l[j - 1]);
            }
        } else {
            // i < p == j
        }
    }
}

/// What `lower_bound` is, on sorted labels.
proof fn lower_bound_facts(l: Seq<Seq<char>>, k: Seq<char>) -> (p: int)
    requires
        sorted_labels(l),
    ensures
        p == lower_bound(l, k),
        0 <= p <= l.len(),
        forall|i: int| 0 <= i < p ==> text_less(#[trigger] l[i], k),
        p == l.len() || !text_less(l[p], k),
    decreases l.len(),
{
    if l.len() == 0 {
        0
    } else if text_less(l.last(), k) {
        assert forall|i: int| 0 <= i < l.len() implies text_less(#[trigger] l[i], k) by {
            if i < l.len() - 1 {
                lemma_text_less_transitive(l[i], l.last(), k);
            }
        }
        l.len() as int
    } else {
        let p = lower_bound_facts(l.drop_last(), k);
        assert(forall|i: int| 0 <= i < p ==> l[i] == l.drop_last()[i]);
        p
    }
}

} // verus!
