//! AI instruction file generation.
//!
//! Each target AI instruction file is assembled from a shared template
//! plus a target-specific template fragment.
use crate::text::{chars_of, push_text};
use vstd::prelude::*;

verus! {

/// A generated AI instruction file.
pub struct AiInstructionFile {
    /// Path relative to the repository root.
    pub path: &'static str,
    /// Generated content.
    pub content: String,
}

/// The texts of `fragments`, one after another.
pub open spec fn concat(fragments: Seq<Seq<char>>) -> Seq<char>
    decreases fragments.len(),
{
    if fragments.len() == 0 {
        seq![]
    } else {
        fragments[0] + concat(fragments.drop_first())
    }
}

/// Concatenating two runs of fragments concatenates their texts.
pub proof fn lemma_concat_append(a: Seq<Seq<char>>, b: Seq<Seq<char>>)
    ensures
        concat(a + b) == concat(a) + concat(b),
    decreases a.len(),
{
    if a.len() == 0 {
        assert(a + b =~= b);
        assert(concat(a) + concat(b) =~= concat(b));
    } else {
        lemma_concat_append(a.drop_first(), b);
        assert((a + b).drop_first() =~= a.drop_first() + b);
        assert(concat(a + b) =~= concat(a) + concat(b));
    }
}

/// The content of a target's file: the shared template, then the target's
/// own fragment.
pub open spec fn instruction_content(shared: Seq<char>, specific: Seq<char>) -> Seq<char> {
    concat(seq![shared, specific])
}

/// Generate the AI instruction file of each target, in order: its path, and
/// the shared template followed by the target's own fragment.
pub fn generate(shared: &str, targets: &[(&'static str, &str)]) -> (files: Vec<AiInstructionFile>)
    ensures
        files@.len() == targets@.len(),
        forall|i: int|
            0 <= i < targets@.len() ==> {
                &&& (#[trigger] files@[i]).path == targets@[i].0
                &&& files@[i].content@ == instruction_content(shared@, targets@[i].1@)
            },
{
    let mut files: Vec<AiInstructionFile> = Vec::new();
    let len = targets.len();
    for i in 0..len
        invariant
            len == targets@.len(),
            files@.len() == i,
            forall|j: int|
                0 <= j < i ==> {
                    &&& (#[trigger] files@[j]).path == targets@[j].0
                    &&& files@[j].content@ == instruction_content(shared@, targets@[j].1@)
                },
    {
        let (path, specific) = targets[i];
        let mut content = String::new();
        push_text(&mut content, shared);
        push_text(&mut content, specific);
        proof {
            reveal_with_fuel(concat, 3);
            assert(content@ =~= instruction_content(shared@, specific@));
        }
        files.push(AiInstructionFile { path, content });
    }
    files
}

/// A sequence of template fragments that a file's content is made of.
#[derive(Clone, Copy)]
pub struct Fragments<'a>(pub &'a [&'a str]);

impl<'a> Fragments<'a> {
    /// The views of the fragments.
    pub open spec fn texts(&self) -> Seq<Seq<char>> {
        self.0@.map_values(|fragment: &str| fragment@)
    }

    /// The fragments, one after another, as the file's content.
    pub fn to_string(&self) -> (content: String)
        ensures
            content@ == concat(self.texts()),
    {
        let Fragments(fragments) = *self;
        let ghost texts = self.texts();
        let mut content = String::new();
        let count = fragments.len();
        for i in 0..count
            invariant
                count == fragments@.len(),
                texts == self.texts(),
                texts == fragments@.map_values(|fragment: &str| fragment@),
                content@ == concat(texts.take(i as int)),
        {
            proof {
                lemma_concat_append(texts.take(i as int), seq![texts[i as int]]);
                assert(texts.take(i + 1) =~= texts.take(i as int) + seq![texts[i as int]]);
                reveal_with_fuel(concat, 2);
                assert(concat(seq![texts[i as int]]) =~= texts[i as int]);
            }
            push_text(&mut content, fragments[i]);
        }
        proof {
            assert(texts.take(count as int) =~= texts);
        }
        content
    }

    /// Whether `actual` is exactly the fragments, one after another.
    pub fn matches(&self, actual: &str) -> (r: bool)
        ensures
            r == (actual@ == concat(self.texts())),
    {
        let Fragments(fragments) = *self;
        let ghost texts = self.texts();
        let chars = chars_of(actual);
        let len = chars.len();
        let mut position: usize = 0;
        let count = fragments.len();
        for i in 0..count
            invariant
                count == fragments@.len(),
                texts == fragments@.map_values(|fragment: &str| fragment@),
                texts == self.texts(),
                chars@ == actual@,
                len == chars@.len(),
                position <= len,
                chars@.take(position as int) == concat(texts.take(i as int)),
        {
            let fragment = chars_of(fragments[i]);
            let ghost text = texts[i as int];
            assert(fragment@ == text);
            proof {
                lemma_concat_append(texts.take(i as int), seq![text]);
                assert(texts.take(i + 1) =~= texts.take(i as int) + seq![text]);
                reveal_with_fuel(concat, 2);
                assert(concat(seq![text]) =~= text);
                lemma_concat_append(texts.take(i as int), texts.skip(i as int));
                assert(texts =~= texts.take(i as int) + texts.skip(i as int));
                assert(texts.skip(i as int).drop_first() =~= texts.skip(i + 1));
            }
            let flen = fragment.len();
            let ghost rest = concat(texts.skip(i + 1));
            proof {
                assert(concat(texts.skip(i as int)) == text + rest);
                assert(concat(texts) =~= concat(texts.take(i as int)) + text + rest);
                assert(concat(texts.take(i as int)).len() == position);
                if actual@ == concat(texts) {
                    assert(len >= position + flen);
                    assert forall|m: int| 0 <= m < flen implies chars@[position + m] == text[m] by {
                        assert(concat(texts)[position + m] == (concat(texts.take(i as int)) + text
                            + rest)[position + m]);
                    }
                }
            }
            if flen > len - position {
                return false;
            }
            let mut j: usize = 0;
            while j < flen
                invariant
                    j <= flen,
                    flen == fragment@.len(),
                    fragment@ == text,
                    position + flen <= len,
                    len == chars@.len(),
                    actual@ == chars@,
                    texts == self.texts(),
                    actual@ == concat(texts) ==> forall|m: int|
                        0 <= m < flen ==> chars@[position + m] == text[m],
                    forall|m: int| 0 <= m < j ==> chars@[position + m] == fragment@[m],
                decreases flen - j,
            {
                if chars[position + j] != fragment[j] {
                    return false;
                }
                j = j + 1;
            }
            proof {
                assert(chars@.take(position + flen) =~= chars@.take(position as int) + text);
            }
            position = position + flen;
        }
        proof {
            assert(texts.take(count as int) =~= texts);
        }
        if position == len {
            proof {
                assert(chars@.take(position as int) =~= chars@);
            }
            true
        } else {
            proof {
                assert(chars@.take(position as int).len() < chars@.len());
            }
            false
        }
    }
}

/// Every generated file matches the fragments it was made of, so a check
/// made right after the generation finds nothing out of date.
pub proof fn lemma_generated_files_match(shared: Seq<char>, specific: Seq<char>, content: Seq<char>)
    requires
        content == instruction_content(shared, specific),
    ensures
        content == concat(seq![shared, specific]),
        content == shared + specific,
{
    reveal_with_fuel(concat, 3);
    assert(concat(seq![shared, specific]) =~= shared + specific);
}

} // verus!
