//! The input form convention: a document with one line that starts with `?`
//! (`??` for sensitive input) holding the prompt, and a body that may hold the
//! token `{INPUT}`. Without a query the prompt is asked for; with one, the
//! answer is put in place of every token and the prompt lines are removed.

use vstd::prelude::*;
use crate::response::{
    not_found, not_found_meta, opt_view, success, text_gemini, ResponseStatus, INPUT, NOT_FOUND,
    SENSITIVE_INPUT, SUCCESS,
};
use crate::text::{
    chars_of, joined, lemma_split_joined, lemma_split_pieces_free, push_all, replace_all, replace_chars, seqs, split_chars, split_on,
    string_of,
};

verus! {

/// A line that starts with `?`.
pub open spec fn is_prompt_line(l: Seq<char>) -> bool {
    l.len() > 0 && l[0] == '?'
}

/// A line that starts with `??`: the answer is sensitive.
pub open spec fn is_sensitive_prompt(l: Seq<char>) -> bool {
    l.len() >= 2 && l[0] == '?' && l[1] == '?'
}

/// The first prompt line among `ls`, if any.
pub open spec fn first_prompt(ls: Seq<Seq<char>>) -> Option<Seq<char>>
    decreases ls.len(),
{
    if ls.len() == 0 {
        None
    } else if is_prompt_line(ls[0]) {
        Some(ls[0])
    } else {
        first_prompt(ls.skip(1))
    }
}

/// `l` without its leading `?` markers.
pub open spec fn strip_markers(l: Seq<char>) -> Seq<char>
    decreases l.len(),
{
    if l.len() > 0 && l[0] == '?' {
        strip_markers(l.skip(1))
    } else {
        l
    }
}

/// `s` without a final carriage return.
pub open spec fn drop_cr(s: Seq<char>) -> Seq<char> {
    if s.len() > 0 && s.last() == '\r' {
        s.drop_last()
    } else {
        s
    }
}

/// The text of a prompt line.
pub open spec fn prompt_text(l: Seq<char>) -> Seq<char> {
    drop_cr(strip_markers(l))
}

/// The first phase: the prompt of the document, or not-found where it has none.
pub open spec fn prompt_outcome(content: Seq<char>) -> (u32, Seq<char>, Option<Seq<char>>) {
    match first_prompt(split_on(content, '\n')) {
        None => (NOT_FOUND, not_found_meta(), None),
        Some(l) => (
            if is_sensitive_prompt(l) { SENSITIVE_INPUT } else { INPUT },
            prompt_text(l),
            None,
        ),
    }
}

/// The lines of `ls` that are not prompt lines, in order.
pub open spec fn without_prompts(ls: Seq<Seq<char>>) -> Seq<Seq<char>>
    decreases ls.len(),
{
    if ls.len() == 0 {
        ls
    } else {
        let k = without_prompts(ls.drop_last());
        if is_prompt_line(ls.last()) {
            k
        } else {
            k.push(ls.last())
        }
    }
}

/// The placeholder that the answer replaces.
pub open spec fn input_token() -> Seq<char> {
    seq!['{', 'I', 'N', 'P', 'U', 'T', '}']
}

/// The second phase's document: the answer in place of every token, then the
/// prompt lines removed.
pub open spec fn answered(content: Seq<char>, answer: Seq<char>) -> Seq<char> {
    joined(without_prompts(split_on(replace_all(content, input_token(), answer), '\n')), '\n')
}

/// What a form request is answered with, given the document (`None` when it
/// could not be read) and the decoded query.
pub open spec fn form_outcome(content: Option<Seq<char>>, query: Option<Seq<char>>) -> (
    u32,
    Seq<char>,
    Option<Seq<char>>,
) {
    match content {
        None => (NOT_FOUND, not_found_meta(), None),
        Some(c) => match query {
            None => prompt_outcome(c),
            Some(q) => (SUCCESS, text_gemini(), Some(answered(c, q))),
        },
    }
}

/// The first phase of a form: asks for input with the document's prompt.
pub fn form_prompt(content: &str) -> (r: ResponseStatus)
    ensures
        r@ == prompt_outcome(content@),
        r.wf(),
{
    let text = chars_of(content);
    let lines = split_chars(&text, '\n');
    let ghost ls = seqs(lines@);
    let mut i: usize = 0;
    proof {
        assert(ls.skip(0) =~= ls);
    }
    while i < lines.len()
        invariant
            i <= lines.len(),
            ls == seqs(lines@),
            ls == split_on(text@, '\n'),
            text@ == content@,
            first_prompt(ls.skip(i as int)) == first_prompt(ls),
        decreases lines.len() - i,
    {
        let ghost rest = ls.skip(i as int);
        let line = &lines[i];
        if line.len() > 0 && line[0] == '?' {
            proof {
                assert(rest[0] == line@);
            }
            let sensitive = line.len() >= 2 && line[1] == '?';
            let mut j: usize = 0;
            proof {
                assert(line@.skip(0) =~= line@);
            }
            while j < line.len() && line[j] == '?'
                invariant
                    j <= line.len(),
                    strip_markers(line@.skip(j as int)) == strip_markers(line@),
                decreases line.len() - j,
            {
                proof {
                    assert(line@.skip(j as int).skip(1) =~= line@.skip(j + 1));
                }
                j = j + 1;
            }
            let mut end = line.len();
            if end > j && line[end - 1] == '\r' {
                end = end - 1;
            }
            let mut prompt: Vec<char> = Vec::new();
            let mut k: usize = j;
            while k < end
                invariant
                    j <= k <= end <= line.len(),
                    prompt@ == line@.subrange(j as int, k as int),
                decreases end - k,
            {
                prompt.push(line[k]);
                k = k + 1;
                proof {
                    assert(line@.subrange(j as int, k as int) =~= line@.subrange(j as int, k - 1).push(line@[k - 1]));
                }
            }
            proof {
                let stripped = line@.skip(j as int);
                assert(strip_markers(stripped) == stripped);
                assert(prompt@ =~= drop_cr(stripped));
            }
            let code = if sensitive { SENSITIVE_INPUT } else { INPUT };
            return ResponseStatus::new(code, string_of(&prompt), None);
        }
        proof {
            assert(rest.skip(1) =~= ls.skip(i + 1));
        }
        i = i + 1;
    }
    not_found()
}

/// The second phase of a form: the document with the answer in place of every
/// `{INPUT}` and without its prompt lines.
pub fn form_answer(content: &str, answer: &str) -> (r: ResponseStatus)
    ensures
        r@ == (SUCCESS, text_gemini(), Some(answered(content@, answer@))),
        r.wf(),
{
    let token: Vec<char> = vec!['{', 'I', 'N', 'P', 'U', 'T', '}'];
    proof {
        assert(token@ =~= input_token());
    }
    let replaced = replace_chars(&chars_of(content), &token, &chars_of(answer));
    let lines = split_chars(&replaced, '\n');
    let ghost ls = seqs(lines@);
    let mut out: Vec<char> = Vec::new();
    let mut started = false;
    let mut i: usize = 0;
    proof {
        assert(ls.take(0) =~= Seq::<Seq<char>>::empty());
    }
    while i < lines.len()
        invariant
            i <= lines.len(),
            ls == seqs(lines@),
            out@ == joined(without_prompts(ls.take(i as int)), '\n'),
            started == (without_prompts(ls.take(i as int)).len() > 0),
        decreases lines.len() - i,
    {
        proof {
            assert(ls.take(i + 1).drop_last() =~= ls.take(i as int));
            assert(ls.take(i + 1).last() == lines@[i as int]@);
        }
        let line = &lines[i];
        if !(line.len() > 0 && line[0] == '?') {
            let ghost kept = without_prompts(ls.take(i as int));
            if started {
                out.push('\n');
            }
            push_all(&mut out, line);
            started = true;
            proof {
                let k2 = kept.push(line@);
                assert(k2.drop_last() =~= kept);
                if kept.len() > 0 {
                    assert(joined(k2, '\n') == joined(kept, '\n') + seq!['\n'] + line@);
                } else {
                    assert(joined(k2, '\n') == line@);
                }
            }
        }
        i = i + 1;
    }
    proof {
        assert(ls.take(i as int) =~= ls);
    }
    success(string_of(&out))
}

/// Answers a form request: the document could not be read (`None`), or it is
/// asked for (no query), or it is answered (a query).
pub fn form_response(content: Option<String>, query: Option<String>) -> (r: ResponseStatus)
    ensures
        r@ == form_outcome(opt_view(content), opt_view(query)),
        r.wf(),
{
    match content {
        None => not_found(),
        Some(c) => match query {
            None => form_prompt(c.as_str()),
            Some(q) => form_answer(c.as_str(), q.as_str()),
        },
    }
}

proof fn lemma_without_prompts(ls: Seq<Seq<char>>)
    ensures
        forall|j: int|
            0 <= j < without_prompts(ls).len() ==> !is_prompt_line(#[trigger] without_prompts(ls)[j])
                && ls.contains(without_prompts(ls)[j]),
    decreases ls.len(),
{
    if ls.len() > 0 {
        let init = ls.drop_last();
        lemma_without_prompts(init);
        let w = without_prompts(ls);
        assert forall|j: int| 0 <= j < w.len() implies !is_prompt_line(#[trigger] w[j]) && ls.contains(w[j]) by {
            if j < without_prompts(init).len() {
                assert(w[j] == without_prompts(init)[j]);
                let k = choose|k: int| 0 <= k < init.len() && init[k] == w[j];
                assert(ls[k] == w[j]);
            } else {
                assert(w[j] == ls.last());
                assert(ls[ls.len() - 1] == w[j]);
            }
        }
    }
}

/// After the second phase, no line of the document starts with `?`.
pub proof fn lemma_answer_has_no_prompt(content: Seq<char>, answer: Seq<char>)
    ensures
        forall|i: int|
            0 <= i < split_on(answered(content, answer), '\n').len() ==> !is_prompt_line(
                #[trigger] split_on(answered(content, answer), '\n')[i],
            ),
{
    let replaced = replace_all(content, input_token(), answer);
    let ls = split_on(replaced, '\n');
    let w = without_prompts(ls);
    lemma_split_pieces_free(replaced, '\n');
    lemma_without_prompts(ls);
    if w.len() == 0 {
        assert(answered(content, answer) == Seq::<char>::empty());
        assert(split_on(Seq::<char>::empty(), '\n') == seq![Seq::<char>::empty()]);
    } else {
        assert forall|j: int| 0 <= j < w.len() implies !(#[trigger] w[j]).contains('\n') by {
            let k = choose|k: int| 0 <= k < ls.len() && ls[k] == w[j];
        }
        lemma_split_joined(w, '\n');
    }
}

} // verus!
