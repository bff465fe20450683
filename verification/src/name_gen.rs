//! Random usernames of the form `adjective-noun`, drawn from word lists.
//!
//! A word list is a text with one word per line; blank lines are skipped.

use vstd::prelude::*;

use crate::random::random_below;
use crate::srgb::push_char;
use vstd::std_specs::iter::IteratorSpec;
use vstd::string::StringExecFns;

verus! {

/// Whether `c` is white space as Unicode defines it (what `char::is_whitespace`
/// tests).
pub open spec fn is_white_space(c: char) -> bool {
    let v = c as u32;
    ||| 0x9 <= v <= 0xd
    ||| v == 0x20
    ||| v == 0x85
    ||| v == 0xa0
    ||| v == 0x1680
    ||| 0x2000 <= v <= 0x200a
    ||| v == 0x2028
    ||| v == 0x2029
    ||| v == 0x202f
    ||| v == 0x205f
    ||| v == 0x3000
}

/// A line that has something besides white space.
pub open spec fn not_blank(line: Seq<char>) -> bool {
    exists|i: int| 0 <= i < line.len() && !is_white_space(#[trigger] line[i])
}

/// The position of the first line feed, or the length if there is none.
pub open spec fn newline_index(s: Seq<char>) -> nat
    decreases s.len(),
{
    if s.len() == 0 {
        0
    } else if s[0] == '\n' {
        0
    } else {
        1 + newline_index(s.drop_first())
    }
}

/// A line without the carriage return that ended it, if it had one.
pub open spec fn strip_cr(line: Seq<char>) -> Seq<char> {
    if line.len() > 0 && line.last() == '\r' {
        line.drop_last()
    } else {
        line
    }
}

/// The lines of a text, as `str::lines` gives them: split at each line feed,
/// a carriage return before the line feed dropped, and no empty line after a
/// final line feed.
pub open spec fn text_lines(s: Seq<char>) -> Seq<Seq<char>>
    decreases s.len(),
{
    if s.len() == 0 {
        seq![]
    } else {
        let n = newline_index(s);
        if n >= s.len() {
            seq![s]
        } else {
            seq![strip_cr(s.take(n as int))] + text_lines(s.skip(n + 1 as int))
        }
    }
}

/// The words of a word list: its lines that are not blank.
pub open spec fn word_list(s: Seq<char>) -> Seq<Seq<char>> {
    text_lines(s).filter(|l: Seq<char>| not_blank(l))
}

/// The texts of some strings.
pub open spec fn texts(v: Seq<String>) -> Seq<Seq<char>> {
    v.map_values(|w: String| w@)
}

proof fn lemma_newline_index(s: Seq<char>, k: int)
    requires
        0 <= k <= s.len(),
        forall|i: int| 0 <= i < k ==> s[i] != '\n',
        k < s.len() ==> s[k] == '\n',
    ensures
        newline_index(s) == k,
    decreases s.len(),
{
    if s.len() > 0 && k > 0 {
        assert forall|i: int| 0 <= i < k - 1 implies s.drop_first()[i] != '\n' by {
            assert(s.drop_first()[i] == s[i + 1]);
        }
        lemma_newline_index(s.drop_first(), k - 1);
    }
}

fn char_is_white_space(c: char) -> (r: bool)
    ensures
        r == is_white_space(c),
{
    let v = c as u32;
    (0x9 <= v && v <= 0xd) || v == 0x20 || v == 0x85 || v == 0xa0 || v == 0x1680 || (0x2000 <= v
        && v <= 0x200a) || v == 0x2028 || v == 0x2029 || v == 0x202f || v == 0x205f || v == 0x3000
}

/// The characters of a text.
pub(crate) fn chars_of(s: &str) -> (v: Vec<char>)
    ensures
        v@ == s@,
{
    broadcast use vstd::string::axiom_spec_iter, vstd::string::next_postcondition;

    let mut v: Vec<char> = Vec::new();
    let mut it = s.chars();
    loop
        invariant
            v@ + it.remaining() == s@,
            it.obeys_prophetic_iter_laws(),
            it.decrease() is Some,
        ensures
            v@ == s@,
        decreases it.decrease()->0,
    {
        let ghost before = it.remaining();
        match it.next() {
            Some(c) => {
                v.push(c);
                assert(v@ + it.remaining() =~= s@) by {
                    assert(before =~= seq![c] + before.drop_first());
                }
            },
            None => {
                assert(v@ =~= s@);
                break;
            },
        }
    }
    v
}

/// The line `chars[from..to]`, without a carriage return at its end if
/// `strip`, and whether it is blank.
fn line_of(chars: &Vec<char>, from: usize, to: usize, strip: bool) -> (r: (String, bool))
    requires
        from <= to <= chars@.len(),
    ensures
        r.0@ == if strip {
            strip_cr(chars@.subrange(from as int, to as int))
        } else {
            chars@.subrange(from as int, to as int)
        },
        r.1 == !not_blank(r.0@),
{
    let end = if strip && to > from && chars[to - 1] == '\r' {
        to - 1
    } else {
        to
    };
    let mut line = String::new();
    let mut blank = true;
    let mut i = from;
    while i < end
        invariant
            from <= i <= end <= to <= chars@.len(),
            line@ == chars@.subrange(from as int, i as int),
            blank == forall|j: int| 0 <= j < line@.len() ==> is_white_space(#[trigger] line@[j]),
        decreases end - i,
    {
        let c = chars[i];
        let ws = char_is_white_space(c);
        let ghost before = line@;
        push_char(&mut line, c);
        proof {
            assert(line@ =~= chars@.subrange(from as int, i + 1));
            assert(line@ == before.push(c));
            assert(line@[before.len() as int] == c);
            assert(forall|j: int| 0 <= j < before.len() ==> line@[j] == before[j]);
        }
        blank = blank && ws;
        i = i + 1;
    }
    proof {
        if strip {
            assert(line@ =~= strip_cr(chars@.subrange(from as int, to as int)));
        } else {
            assert(line@ =~= chars@.subrange(from as int, to as int));
        }
    }
    (line, blank)
}

/// The words of a word list.
fn words_of(text: &str) -> (words: Vec<String>)
    ensures
        texts(words@) == word_list(text@),
{
    let chars = chars_of(text);
    let ghost s = text@;
    let ghost keep = |l: Seq<char>| not_blank(l);
    let mut words: Vec<String> = Vec::new();
    let ghost mut done: Seq<Seq<char>> = seq![];
    let mut start: usize = 0;
    let mut i: usize = 0;
    proof {
        assert(s.skip(0) =~= s);
        reveal_with_fuel(Seq::filter, 1);
    }
    while i < chars.len()
        invariant
            chars@ == s,
            keep == (|l: Seq<char>| not_blank(l)),
            0 <= start <= i <= s.len(),
            forall|j: int| start <= j < i ==> s[j] != '\n',
            done + text_lines(s.skip(start as int)) == text_lines(s),
            texts(words@) == done.filter(keep),
        decreases s.len() - i,
    {
        if chars[i] == '\n' {
            let (line, blank) = line_of(&chars, start, i, true);
            proof {
                let rest = s.skip(start as int);
                lemma_newline_index(rest, i - start);
                assert(rest.take(i - start) =~= s.subrange(start as int, i as int));
                assert(rest.skip(i - start + 1) =~= s.skip(i + 1));
                assert(text_lines(rest) == seq![line@] + text_lines(s.skip(i + 1)));
                assert(done + seq![line@] + text_lines(s.skip(i + 1)) =~= done + text_lines(rest));
                done.lemma_filter_push(line@, keep);
                assert(done + seq![line@] =~= done.push(line@));
            }
            let ghost lv = line@;
            let ghost old_words = words@;
            if !blank {
                words.push(line);
                proof {
                    assert(texts(words@) =~= texts(old_words).push(lv));
                }
            }
            proof {
                assert(keep(lv) == !blank);
                assert(texts(words@) == done.push(lv).filter(keep));
                done = done.push(lv);
            }
            start = i + 1;
        }
        i = i + 1;
    }
    if start < chars.len() {
        let (line, blank) = line_of(&chars, start, chars.len(), false);
        proof {
            let rest = s.skip(start as int);
            assert forall|j: int| 0 <= j < rest.len() implies rest[j] != '\n' by {
                assert(rest[j] == s[start + j]);
            }
            lemma_newline_index(rest, rest.len() as int);
            assert(rest =~= s.subrange(start as int, s.len() as int));
            assert(text_lines(rest) == seq![rest]);
            done.lemma_filter_push(line@, keep);
            assert(done + seq![line@] =~= done.push(line@));
        }
        let ghost lv = line@;
        let ghost old_words = words@;
        if !blank {
            words.push(line);
            proof {
                assert(texts(words@) =~= texts(old_words).push(lv));
            }
        }
        proof {
            assert(keep(lv) == !blank);
            assert(texts(words@) == done.push(lv).filter(keep));
            done = done.push(lv);
        }
    } else {
        proof {
            assert(s.skip(start as int) =~= Seq::<char>::empty());
            assert(done + Seq::<Seq<char>>::empty() =~= done);
        }
    }
    proof {
        assert(done == text_lines(s));
    }
    words
}

/// Generates usernames from lists of adjectives and nouns.
pub struct NameGenerator {
    adjectives: Vec<String>,
    nouns: Vec<String>,
}

impl View for NameGenerator {
    type V = (Seq<Seq<char>>, Seq<Seq<char>>);

    closed spec fn view(&self) -> (Seq<Seq<char>>, Seq<Seq<char>>) {
        (texts(self.adjectives@), texts(self.nouns@))
    }
}

impl NameGenerator {
    /// A generator whose adjectives and nouns are the words of the given word
    /// lists.
    pub fn new(adjectives_text: &str, nouns_text: &str) -> (g: Self)
        ensures
            g@.0 == word_list(adjectives_text@),
            g@.1 == word_list(nouns_text@),
    {
        let adjectives = words_of(adjectives_text);
        let nouns = words_of(nouns_text);
        NameGenerator { adjectives, nouns }
    }

    /// How many adjectives and nouns there are.
    pub fn word_counts(&self) -> (r: (usize, usize))
        ensures
            r.0 == self@.0.len(),
            r.1 == self@.1.len(),
    {
        (self.adjectives.len(), self.nouns.len())
    }

    /// A random name `adjective-noun`.
    pub fn generate(&self) -> (name: String)
        requires
            self@.0.len() > 0,
            self@.1.len() > 0,
        ensures
            exists|i: int, j: int|
                0 <= i < self@.0.len() && 0 <= j < self@.1.len() && name@ == #[trigger] self@.0[i]
                    + seq!['-'] + #[trigger] self@.1[j],
    {
        let i = random_below(self.adjectives.len());
        let j = random_below(self.nouns.len());
        self.name_at(i, j)
    }

    /// The name made of the `i`-th adjective and the `j`-th noun.
    pub fn name_at(&self, i: usize, j: usize) -> (name: String)
        requires
            i < self@.0.len(),
            j < self@.1.len(),
        ensures
            name@ == self@.0[i as int] + seq!['-'] + self@.1[j as int],
    {
        let mut name = self.adjectives[i].clone();
        push_char(&mut name, '-');
        name.append(self.nouns[j].as_str());
        proof {
            assert(self@.0[i as int] == self.adjectives@[i as int]@);
            assert(self@.1[j as int] == self.nouns@[j as int]@);
        }
        name
    }
}

} // verus!
