//! The user prompt: the document laid out in fixed sections, followed by the
//! operator's question.
use vstd::prelude::*;
use crate::context::{VerseContext, VerseContextView, translation_entries, note_entries, notes_view};
use crate::text::{decimal, push_decimal, trimmed, trim_text};

verus! {

pub const SOURCES_PREAMBLE: &'static str = "Here are some important documents. You should base your answer to her questions on these documents.";

pub const TRANSLATIONS_PREAMBLE: &'static str = "Here are different English Bible translations of the same verse. These are important. Pay attention to the names of the translations, and to the differences between the translations for this verse.";

pub const NOTES_PREAMBLE: &'static str = "Here are some notes on the whole verse. These are NOT Bible translations. The notes apply to ALL Bible translations. These notes help us to understand the Bible translations.";

pub const WORDS_PREAMBLE: &'static str = "Here are some notes on important words in this verse. These notes are also NOT Bible translations. They refer to the unfoldingWord Literal Translation, but may be applied to other Bible translations.";

pub const CLOSING_INSTRUCTION: &'static str = "Now answer the following question, in English, using only the documents above.";

/// One bullet of the translations section.
pub open spec fn translation_line(label: Seq<char>, text: Seq<char>) -> Seq<char> {
    "\n- John 3:16 ("@ + label + "): "@ + text + "\n"@
}

/// One numbered note: `(n) note `.
pub open spec fn note_item(n: nat, note: Seq<char>) -> Seq<char> {
    "("@ + decimal(n) + ") "@ + note + " "@
}

/// A list of notes numbered from 1: the last of `k` notes is numbered `k`.
pub open spec fn numbered(notes: Seq<Seq<char>>) -> Seq<char>
    decreases notes.len(),
{
    if notes.len() == 0 {
        Seq::empty()
    } else {
        numbered(notes.drop_last()) + note_item(notes.len(), notes.last())
    }
}

/// One bullet of the verse-notes section.
pub open spec fn note_line(label: Seq<char>, notes: Seq<Seq<char>>) -> Seq<char> {
    "\n- John 3:16 from the "@ + label + ": "@ + numbered(notes) + "\n"@
}

/// One bullet of the word-notes section.
pub open spec fn snippet_line(words: Seq<char>, notes: Seq<Seq<char>>) -> Seq<char> {
    "\n- the word or words '"@ + words + "' in John 3:16: "@ + numbered(notes) + "\n"@
}

/// The translation bullets, in the order of the entries.
pub open spec fn translations_block(s: Seq<(Seq<char>, Seq<char>)>) -> Seq<char>
    decreases s.len(),
{
    if s.len() == 0 {
        Seq::empty()
    } else {
        translations_block(s.drop_last()) + translation_line(s.last().0, s.last().1)
    }
}

/// The verse-note bullets, in the order of the entries.
pub open spec fn notes_block(s: Seq<(Seq<char>, Seq<Seq<char>>)>) -> Seq<char>
    decreases s.len(),
{
    if s.len() == 0 {
        Seq::empty()
    } else {
        notes_block(s.drop_last()) + note_line(s.last().0, s.last().1)
    }
}

/// The word-note bullets, in the order of the entries.
pub open spec fn snippets_block(s: Seq<(Seq<char>, Seq<Seq<char>>)>) -> Seq<char>
    decreases s.len(),
{
    if s.len() == 0 {
        Seq::empty()
    } else {
        snippets_block(s.drop_last()) + snippet_line(s.last().0, s.last().1)
    }
}

/// The whole prompt for document `c` and (already trimmed) question `q`.
pub open spec fn prompt_text(c: VerseContextView, q: Seq<char>) -> Seq<char> {
    "# Source Documents\n\n"@ + SOURCES_PREAMBLE@
        + "\n\n# Greek-English Juxtalinear Translation\n\n"@ + c.juxta
        + "\n\n# English Bible Translations\n\n"@ + TRANSLATIONS_PREAMBLE@ + "\n"@
        + translations_block(c.translations)
        + "\n# Verse Notes\n\n"@ + NOTES_PREAMBLE@ + "\n"@
        + notes_block(c.notes)
        + "\n# Notes on key words in the verse\n\n"@ + WORDS_PREAMBLE@ + "\n"@
        + snippets_block(c.snippets)
        + "\n# The user's question\n\n"@ + CLOSING_INSTRUCTION@
        + "\n\n**"@ + q + "**"@
}

/// Appends the notes numbered from 1.
fn push_numbered(out: &mut String, notes: &Vec<String>)
    ensures
        final(out)@ == old(out)@ + numbered(notes_view(*notes)),
{
    let ghost start = out@;
    let ghost nv = notes_view(*notes);
    let mut i: usize = 0;
    assert(nv.subrange(0, 0) =~= Seq::<Seq<char>>::empty());
    while i < notes.len()
        invariant
            nv == notes_view(*notes),
            i <= nv.len(),
            out@ == start + numbered(nv.subrange(0, i as int)),
        decreases nv.len() - i,
    {
        out.append("(");
        push_decimal(out, i + 1);
        out.append(") ");
        out.append(notes[i].as_str());
        out.append(" ");
        proof {
            let sub = nv.subrange(0, i + 1);
            assert(sub.drop_last() =~= nv.subrange(0, i as int));
            assert(sub.last() == notes@[i as int]@);
            assert(out@ =~= start + numbered(sub));
        }
        i = i + 1;
    }
    assert(nv.subrange(0, nv.len() as int) =~= nv);
}

/// Appends the translation bullets.
fn push_translations(out: &mut String, entries: &Vec<(String, String)>)
    ensures
        final(out)@ == old(out)@ + translations_block(translation_entries(entries@)),
{
    let ghost start = out@;
    let ghost tv = translation_entries(entries@);
    let mut i: usize = 0;
    assert(tv.subrange(0, 0) =~= Seq::<(Seq<char>, Seq<char>)>::empty());
    while i < entries.len()
        invariant
            tv == translation_entries(entries@),
            i <= tv.len(),
            out@ == start + translations_block(tv.subrange(0, i as int)),
        decreases tv.len() - i,
    {
        out.append("\n- John 3:16 (");
        out.append(entries[i].0.as_str());
        out.append("): ");
        out.append(entries[i].1.as_str());
        out.append("\n");
        proof {
            let sub = tv.subrange(0, i + 1);
            assert(sub.drop_last() =~= tv.subrange(0, i as int));
            assert(sub.last() == tv[i as int]);
            assert(out@ =~= start + translations_block(sub));
        }
        i = i + 1;
    }
    assert(tv.subrange(0, tv.len() as int) =~= tv);
}

/// Appends the verse-note bullets.
fn push_notes(out: &mut String, entries: &Vec<(String, Vec<String>)>)
    ensures
        final(out)@ == old(out)@ + notes_block(note_entries(entries@)),
{
    let ghost start = out@;
    let ghost nv = note_entries(entries@);
    let mut i: usize = 0;
    assert(nv.subrange(0, 0) =~= Seq::<(Seq<char>, Seq<Seq<char>>)>::empty());
    while i < entries.len()
        invariant
            nv == note_entries(entries@),
            i <= nv.len(),
            out@ == start + notes_block(nv.subrange(0, i as int)),
        decreases nv.len() - i,
    {
        out.append("\n- John 3:16 from the ");
        out.append(entries[i].0.as_str());
        out.append(": ");
        push_numbered(out, &entries[i].1);
        out.append("\n");
        proof {
            let sub = nv.subrange(0, i + 1);
            assert(sub.drop_last() =~= nv.subrange(0, i as int));
            assert(sub.last() == nv[i as int]);
            assert(out@ =~= start + notes_block(sub));
        }
        i = i + 1;
    }
    assert(nv.subrange(0, nv.len() as int) =~= nv);
}

/// Appends the word-note bullets.
fn push_snippets(out: &mut String, entries: &Vec<(String, Vec<String>)>)
    ensures
        final(out)@ == old(out)@ + snippets_block(note_entries(entries@)),
{
    let ghost start = out@;
    let ghost nv = note_entries(entries@);
    let mut i: usize = 0;
    assert(nv.subrange(0, 0) =~= Seq::<(Seq<char>, Seq<Seq<char>>)>::empty());
    while i < entries.len()
        invariant
            nv == note_entries(entries@),
            i <= nv.len(),
            out@ == start + snippets_block(nv.subrange(0, i as int)),
        decreases nv.len() - i,
    {
        out.append("\n- the word or words '");
        out.append(entries[i].0.as_str());
        out.append("' in John 3:16: ");
        push_numbered(out, &entries[i].1);
        out.append("\n");
        proof {
            let sub = nv.subrange(0, i + 1);
            assert(sub.drop_last() =~= nv.subrange(0, i as int));
            assert(sub.last() == nv[i as int]);
            assert(out@ =~= start + snippets_block(sub));
        }
        i = i + 1;
    }
    assert(nv.subrange(0, nv.len() as int) =~= nv);
}

/// Lays out the document and an already trimmed question as one prompt.
pub fn render_prompt(context: &VerseContext, question: &str) -> (r: String)
    ensures
        r@ == prompt_text(context@, question@),
{
    let mut out = String::new();
    out.append("# Source Documents\n\n");
    out.append(SOURCES_PREAMBLE);
    out.append("\n\n# Greek-English Juxtalinear Translation\n\n");
    out.append(context.juxta().as_str());
    out.append("\n\n# English Bible Translations\n\n");
    out.append(TRANSLATIONS_PREAMBLE);
    out.append("\n");
    push_translations(&mut out, context.translations());
    out.append("\n# Verse Notes\n\n");
    out.append(NOTES_PREAMBLE);
    out.append("\n");
    push_notes(&mut out, context.notes());
    out.append("\n# Notes on key words in the verse\n\n");
    out.append(WORDS_PREAMBLE);
    out.append("\n");
    push_snippets(&mut out, context.snippets());
    out.append("\n# The user's question\n\n");
    out.append(CLOSING_INSTRUCTION);
    out.append("\n\n**");
    out.append(question);
    out.append("**");
    out
}

/// Builds the prompt for the operator's raw input line: the question is the
/// line with surrounding white space removed.
pub fn generate_user_prompt(context: &VerseContext, user_input: &str) -> (r: String)
    ensures
        r@ == prompt_text(context@, trimmed(user_input@)),
{
    let question = trim_text(user_input);
    render_prompt(context, question)
}

/// The prompt is a function of the document and the question alone: equal
/// inputs always give the same text.
pub proof fn lemma_prompt_deterministic(c1: VerseContextView, q1: Seq<char>, c2: VerseContextView, q2: Seq<char>)
    requires
        c1 == c2,
        q1 == q2,
    ensures
        prompt_text(c1, q1) == prompt_text(c2, q2),
{
}

/// The bullets of each section come one per entry, in the order of the
/// entries, and the entries of a well-formed document are in increasing label
/// order: the bullet of entry `i` directly follows those of the entries before it.
pub proof fn lemma_sections_in_label_order(c: VerseContextView, i: int)
    requires
        c.wf(),
    ensures
        0 <= i < c.translations.len() ==> {
            &&& forall|j: int| i < j < c.translations.len() ==> crate::text::text_less(c.translations[i].0, #[trigger] c.translations[j].0)
            &&& translations_block(c.translations.take(i + 1)) == translations_block(c.translations.take(i))
                + translation_line(c.translations[i].0, c.translations[i].1)
        },
        0 <= i < c.notes.len() ==> {
            &&& forall|j: int| i < j < c.notes.len() ==> crate::text::text_less(c.notes[i].0, #[trigger] c.notes[j].0)
            &&& notes_block(c.notes.take(i + 1)) == notes_block(c.notes.take(i))
                + note_line(c.notes[i].0, c.notes[i].1)
        },
        0 <= i < c.snippets.len() ==> {
            &&& forall|j: int| i < j < c.snippets.len() ==> crate::text::text_less(c.snippets[i].0, #[trigger] c.snippets[j].0)
            &&& snippets_block(c.snippets.take(i + 1)) == snippets_block(c.snippets.take(i))
                + snippet_line(c.snippets[i].0, c.snippets[i].1)
        },
        translations_block(c.translations.take(c.translations.len() as int)) == translations_block(c.translations),
        notes_block(c.notes.take(c.notes.len() as int)) == notes_block(c.notes),
        snippets_block(c.snippets.take(c.snippets.len() as int)) == snippets_block(c.snippets),
{
    if 0 <= i < c.translations.len() {
        assert(c.translations.take(i + 1).drop_last() =~= c.translations.take(i));
        assert forall|j: int| i < j < c.translations.len() implies crate::text::text_less(c.translations[i].0, #[trigger] c.translations[j].0) by {
            assert(crate::context::labels_of(c.translations)[i] == c.translations[i].0);
            assert(crate::context::labels_of(c.translations)[j] == c.translations[j].0);
        }
    }
    if 0 <= i < c.notes.len() {
        assert(c.notes.take(i + 1).drop_last() =~= c.notes.take(i));
        assert forall|j: int| i < j < c.notes.len() implies crate::text::text_less(c.notes[i].0, #[trigger] c.notes[j].0) by {
            assert(crate::context::labels_of(c.notes)[i] == c.notes[i].0);
            assert(crate::context::labels_of(c.notes)[j] == c.notes[j].0);
        }
    }
    if 0 <= i < c.snippets.len() {
        assert(c.snippets.take(i + 1).drop_last() =~= c.snippets.take(i));
        assert forall|j: int| i < j < c.snippets.len() implies crate::text::text_less(c.snippets[i].0, #[trigger] c.snippets[j].0) by {
            assert(crate::context::labels_of(c.snippets)[i] == c.snippets[i].0);
            assert(crate::context::labels_of(c.snippets)[j] == c.snippets[j].0);
        }
    }
    assert(c.translations.take(c.translations.len() as int) =~= c.translations);
    assert(c.notes.take(c.notes.len() as int) =~= c.notes);
    assert(c.snippets.take(c.snippets.len() as int) =~= c.snippets);
}

/// A document without translations, notes or word notes still gets every
/// section heading and preamble, with no bullet under any of them.
pub proof fn lemma_empty_sections(c: VerseContextView, q: Seq<char>)
    requires
        c.translations.len() == 0,
        c.notes.len() == 0,
        c.snippets.len() == 0,
    ensures
        prompt_text(c, q) == "# Source Documents\n\n"@ + SOURCES_PREAMBLE@
            + "\n\n# Greek-English Juxtalinear Translation\n\n"@ + c.juxta
            + "\n\n# English Bible Translations\n\n"@ + TRANSLATIONS_PREAMBLE@ + "\n"@
            + "\n# Verse Notes\n\n"@ + NOTES_PREAMBLE@ + "\n"@
            + "\n# Notes on key words in the verse\n\n"@ + WORDS_PREAMBLE@ + "\n"@
            + "\n# The user's question\n\n"@ + CLOSING_INSTRUCTION@
            + "\n\n**"@ + q + "**"@,
{
    let e = Seq::<char>::empty();
    assert(translations_block(c.translations) == e);
    assert(notes_block(c.notes) == e);
    assert(snippets_block(c.snippets) == e);
    let a = "# Source Documents\n\n"@ + SOURCES_PREAMBLE@
            + "\n\n# Greek-English Juxtalinear Translation\n\n"@ + c.juxta
            + "\n\n# English Bible Translations\n\n"@ + TRANSLATIONS_PREAMBLE@ + "\n"@;
    assert(a + e =~= a);
    let b = a + "\n# Verse Notes\n\n"@ + NOTES_PREAMBLE@ + "\n"@;
    assert(b + e =~= b);
    let d = b + "\n# Notes on key words in the verse\n\n"@ + WORDS_PREAMBLE@ + "\n"@;
    assert(d + e =~= d);
}

/// Every list of notes is numbered 1, 2, 3, ... without gaps: the note at
/// index `k` carries the number `k + 1`, whatever other labels hold.
pub proof fn lemma_note_numbering(notes: Seq<Seq<char>>, k: int)
    requires
        0 <= k < notes.len(),
    ensures
        numbered(notes.take(k + 1)) == numbered(notes.take(k)) + note_item((k + 1) as nat, notes[k]),
        numbered(notes.take(0)) == Seq::<char>::empty(),
        numbered(notes.take(notes.len() as int)) == numbered(notes),
{
    assert(notes.take(k + 1).drop_last() =~= notes.take(k));
    assert(notes.take(notes.len() as int) =~= notes);
}

} // verus!
