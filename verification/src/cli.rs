//! What a conversion decides before it places a comment: whether a word of
//! the list of denied words stands in it, and whether a file needs to be
//! converted at all.
use vstd::prelude::*;
use vstd::string::StrSliceExecFns;

verus! {

/// Whether `needle` stands in `hay` as a run of characters.
pub open spec fn occurs_in(needle: Seq<char>, hay: Seq<char>) -> bool {
    exists|i: int| occurs_at(needle, hay, i)
}

/// Whether `needle` stands in `hay` at the place `i`.
pub open spec fn occurs_at(needle: Seq<char>, hay: Seq<char>, i: int) -> bool {
    0 <= i && i + needle.len() <= hay.len() && hay.subrange(i, i + needle.len()) == needle
}

/// Whether a word of `denylist` stands in `content`.
pub open spec fn denied(content: Seq<char>, denylist: Seq<Seq<char>>) -> bool {
    exists|k: int| 0 <= k < denylist.len() && occurs_in(#[trigger] denylist[k], content)
}

/// The words of a list of denied words.
pub open spec fn words_view(denylist: Seq<String>) -> Seq<Seq<char>> {
    denylist.map_values(|word: String| word@)
}

/// The characters of a text.
fn chars_of(s: &str) -> (r: Vec<char>)
    ensures
        r@ == s@,
{
    let mut out: Vec<char> = Vec::new();
    for c in it: s.chars()
        invariant
            it.seq() == s@,
            out@ == s@.take(it.index() as int),
    {
        proof {
            assert(s@.take(it.index() + 1) =~= s@.take(it.index() as int).push(c));
        }
        out.push(c);
    }
    proof {
        assert(s@.take(s@.len() as int) =~= s@);
    }
    out
}

/// Whether `needle` stands in `hay` at the place `at`.
fn matches_at(needle: &Vec<char>, hay: &Vec<char>, at: usize) -> (r: bool)
    requires
        at + needle@.len() <= hay@.len(),
    ensures
        r == occurs_at(needle@, hay@, at as int),
{
    let n: usize = hay.len();
    let mut j: usize = 0;
    while j < needle.len()
        invariant
            j <= needle@.len(),
            n == hay@.len(),
            at + needle@.len() <= hay@.len(),
            forall|k: int| 0 <= k < j ==> hay@[at + k] == needle@[k],
        decreases needle@.len() - j,
    {
        if hay[at + j] != needle[j] {
            proof {
                assert(hay@.subrange(at as int, at + needle@.len())[j as int] == hay@[at + j]);
            }
            return false;
        }
        j += 1;
    }
    proof {
        assert(hay@.subrange(at as int, at + needle@.len()) =~= needle@);
    }
    true
}

/// Whether `needle` stands in `hay`.
fn contains(hay: &Vec<char>, needle: &Vec<char>) -> (r: bool)
    ensures
        r == occurs_in(needle@, hay@),
{
    if needle.len() > hay.len() {
        return false;
    }
    let last: usize = hay.len() - needle.len();
    let mut at: usize = 0;
    loop
        invariant
            at <= last,
            last == hay@.len() - needle@.len(),
            forall|i: int| 0 <= i < at ==> !occurs_at(needle@, hay@, i),
        decreases last - at,
    {
        if matches_at(needle, hay, at) {
            return true;
        }
        if at == last {
            return false;
        }
        at += 1;
    }
}

/// Whether a word of `denylist` stands in `content`.
pub fn is_denied(content: &str, denylist: &Vec<String>) -> (r: bool)
    ensures
        r == denied(content@, words_view(denylist@)),
{
    let hay: Vec<char> = chars_of(content);
    let ghost words = words_view(denylist@);
    let mut k: usize = 0;
    while k < denylist.len()
        invariant
            k <= denylist@.len(),
            hay@ == content@,
            words == words_view(denylist@),
            forall|i: int| 0 <= i < k ==> !occurs_in(#[trigger] words[i], content@),
        decreases denylist@.len() - k,
    {
        let needle: Vec<char> = chars_of(denylist[k].as_str());
        assert(words[k as int] == needle@);
        if contains(&hay, &needle) {
            return true;
        }
        k += 1;
    }
    false
}

/// Whether `c` is white space: a character with the Unicode property
/// `White_Space`.
pub open spec fn is_whitespace(c: char) -> bool {
    let u = c as u32;
    ||| 0x09 <= u <= 0x0d
    ||| u == 0x20
    ||| u == 0x85
    ||| u == 0xa0
    ||| u == 0x1680
    ||| 0x2000 <= u <= 0x200a
    ||| u == 0x2028
    ||| u == 0x2029
    ||| u == 0x202f
    ||| u == 0x205f
    ||| u == 0x3000
}

/// A text without the white space at its start and at its end.
pub open spec fn trimmed(s: Seq<char>) -> Seq<char>
    decreases s.len(),
{
    if s.len() > 0 && is_whitespace(s[0]) {
        trimmed(s.drop_first())
    } else if s.len() > 0 && is_whitespace(s.last()) {
        trimmed(s.drop_last())
    } else {
        s
    }
}

/// `i` is where the first line of `s` ends: at its first line feed, or at
/// its end.
pub open spec fn is_line_end(s: Seq<char>, i: int) -> bool {
    &&& 0 <= i <= s.len()
    &&& i < s.len() ==> s[i] == '\n'
    &&& forall|j: int| 0 <= j < i ==> #[trigger] s[j] != '\n'
}

/// Where the first line of `s` ends.
pub open spec fn line_end(s: Seq<char>) -> int {
    choose|i: int| is_line_end(s, i)
}

/// The words that a list of denied words holds, one to a line: each line
/// without the white space around it, but for the lines that hold nothing
/// else.
pub open spec fn deny_words(text: Seq<char>) -> Seq<Seq<char>>
    decreases text.len(),
    via deny_words_decreases
{
    let end = line_end(text);
    let word = trimmed(text.take(end));
    let rest = if end < text.len() {
        deny_words(text.skip(end + 1))
    } else {
        Seq::empty()
    };
    if word.len() > 0 {
        seq![word] + rest
    } else {
        rest
    }
}

#[via_fn]
proof fn deny_words_decreases(text: Seq<char>) {
    lemma_line_end_exists(text, 0);
}

/// Every text has a place where its first line ends.
proof fn lemma_line_end_exists(s: Seq<char>, from: int)
    requires
        0 <= from <= s.len(),
        forall|j: int| 0 <= j < from ==> #[trigger] s[j] != '\n',
    ensures
        is_line_end(s, line_end(s)),
    decreases s.len() - from,
{
    if from < s.len() && s[from] != '\n' {
        lemma_line_end_exists(s, from + 1);
    } else {
        assert(is_line_end(s, from));
    }
}

/// The place that `is_line_end` describes is the one `line_end` names.
proof fn lemma_line_end(s: Seq<char>, i: int)
    requires
        is_line_end(s, i),
    ensures
        line_end(s) == i,
{
    let c = line_end(s);
    assert(is_line_end(s, c));
    if c < i {
        assert(s[c] != '\n');
    } else if i < c {
        assert(s[i] != '\n');
    }
}

/// A text of white space alone is trimmed to nothing.
proof fn lemma_trimmed_blank(s: Seq<char>)
    requires
        forall|i: int| 0 <= i < s.len() ==> is_whitespace(#[trigger] s[i]),
    ensures
        trimmed(s) == Seq::<char>::empty(),
    decreases s.len(),
{
    if s.len() > 0 {
        lemma_trimmed_blank(s.drop_first());
    }
}

/// A text is trimmed to what stands between its first and its last
/// character that is no white space.
proof fn lemma_trimmed(s: Seq<char>, a: int, b: int)
    requires
        0 <= a < b <= s.len(),
        forall|i: int| 0 <= i < a ==> is_whitespace(#[trigger] s[i]),
        forall|i: int| b <= i < s.len() ==> is_whitespace(#[trigger] s[i]),
        !is_whitespace(s[a]),
        !is_whitespace(s[b - 1]),
    ensures
        trimmed(s) == s.subrange(a, b),
    decreases s.len(),
{
    if is_whitespace(s[0]) {
        let rest = s.drop_first();
        assert forall|i: int| 0 <= i < a - 1 implies is_whitespace(#[trigger] rest[i]) by {
            assert(rest[i] == s[i + 1]);
        }
        assert forall|i: int| b - 1 <= i < rest.len() implies is_whitespace(#[trigger] rest[i]) by {
            assert(rest[i] == s[i + 1]);
        }
        lemma_trimmed(rest, a - 1, b - 1);
        assert(rest.subrange(a - 1, b - 1) =~= s.subrange(a, b));
    } else if is_whitespace(s.last()) {
        let rest = s.drop_last();
        assert forall|i: int| 0 <= i < a implies is_whitespace(#[trigger] rest[i]) by {
            assert(rest[i] == s[i]);
        }
        assert forall|i: int| b <= i < rest.len() implies is_whitespace(#[trigger] rest[i]) by {
            assert(rest[i] == s[i]);
        }
        lemma_trimmed(rest, a, b);
        assert(rest.subrange(a, b) =~= s.subrange(a, b));
    } else {
        assert(a == 0);
        assert(b == s.len());
        assert(s.subrange(a, b) =~= s);
    }
}

/// Whether `c` is white space.
fn is_space(c: char) -> (r: bool)
    ensures
        r == is_whitespace(c),
{
    let u: u32 = c as u32;
    (0x09 <= u && u <= 0x0d) || u == 0x20 || u == 0x85 || u == 0xa0 || u == 0x1680 || (0x2000 <= u
        && u <= 0x200a) || u == 0x2028 || u == 0x2029 || u == 0x202f || u == 0x205f || u == 0x3000
}

/// The word on the line of `chars` that starts at `start` and ends before
/// `end`, as the places between which it stands; the two are equal where
/// the line holds white space alone.
fn trim_line(chars: &Vec<char>, start: usize, end: usize) -> (r: (usize, usize))
    requires
        start <= end <= chars@.len(),
    ensures
        start <= r.0 <= r.1 <= end,
        trimmed(chars@.subrange(start as int, end as int)) == chars@.subrange(r.0 as int, r.1 as int),
{
    let ghost line = chars@.subrange(start as int, end as int);
    let mut a: usize = start;
    while a < end && is_space(chars[a])
        invariant
            start <= a <= end <= chars@.len(),
            forall|i: int| start <= i < a ==> is_whitespace(#[trigger] chars@[i]),
        decreases end - a,
    {
        a += 1;
    }
    let mut b: usize = end;
    while b > a && is_space(chars[b - 1])
        invariant
            a <= b <= end <= chars@.len(),
            forall|i: int| b <= i < end ==> is_whitespace(#[trigger] chars@[i]),
        decreases b - a,
    {
        b -= 1;
    }
    proof {
        if a == b {
            assert forall|i: int| 0 <= i < line.len() implies is_whitespace(#[trigger] line[i]) by {
                assert(line[i] == chars@[start + i]);
            }
            lemma_trimmed_blank(line);
            assert(chars@.subrange(a as int, b as int) =~= Seq::<char>::empty());
        } else {
            assert forall|i: int| 0 <= i < a - start implies is_whitespace(#[trigger] line[i]) by {
                assert(line[i] == chars@[start + i]);
            }
            assert forall|i: int| b - start <= i < line.len() implies is_whitespace(
                #[trigger] line[i],
            ) by {
                assert(line[i] == chars@[start + i]);
            }
            assert(line[a - start] == chars@[a as int]);
            assert(line[b - start - 1] == chars@[b - 1]);
            lemma_trimmed(line, a - start, b - start);
            assert(line.subrange(a - start, b - start) =~= chars@.subrange(a as int, b as int));
        }
    }
    (a, b)
}

/// Reads a list of denied words, which holds one word to a line.
pub fn parse_denylist(text: &str) -> (r: Vec<String>)
    ensures
        words_view(r@) == deny_words(text@),
{
    let chars: Vec<char> = chars_of(text);
    let n: usize = chars.len();
    let mut out: Vec<String> = Vec::new();
    let mut pos: usize = 0;
    proof {
        assert(chars@.skip(0) =~= chars@);
        assert(words_view(out@) =~= Seq::<Seq<char>>::empty());
    }
    loop
        invariant_except_break
            words_view(out@) + deny_words(chars@.skip(pos as int)) == deny_words(chars@),
        invariant
            pos <= n,
            n == chars@.len(),
            chars@ == text@,
        ensures
            words_view(out@) == deny_words(chars@),
        decreases n - pos,
    {
        let ghost rest = chars@.skip(pos as int);
        let ghost found = words_view(out@);
        let mut end: usize = pos;
        while end < n && chars[end] != '\n'
            invariant
                pos <= end <= n,
                n == chars@.len(),
                forall|j: int| pos <= j < end ==> chars@[j] != '\n',
            decreases n - end,
        {
            end += 1;
        }
        proof {
            assert forall|j: int| 0 <= j < end - pos implies #[trigger] rest[j] != '\n' by {
                assert(rest[j] == chars@[pos + j]);
            }
            lemma_line_end(rest, end - pos);
            assert(rest.take(end - pos) =~= chars@.subrange(pos as int, end as int));
            if end < n {
                assert(rest.skip(end - pos + 1) =~= chars@.skip(end + 1));
            }
        }
        let (a, b) = trim_line(&chars, pos, end);
        if a < b {
            let word: String = text.substring_char(a, b).to_owned();
            out.push(word);
            proof {
                assert(words_view(out@) =~= found + seq![chars@.subrange(a as int, b as int)]);
            }
        }
        if end == n {
            proof {
                assert(words_view(out@) + Seq::<Seq<char>>::empty() =~= words_view(out@));
            }
            break ;
        }
        proof {
            let more = deny_words(chars@.skip(end + 1));
            if a < b {
                let word = seq![chars@.subrange(a as int, b as int)];
                assert((found + word) + more =~= found + (word + more));
            }
        }
        pos = end + 1;
    }
    out
}

/// Whether the conversion of a file can be left out: it is not forced, and
/// the output is there and was modified later than the input. The times
/// count from any one moment.
pub fn is_up_to_date(force: bool, input_modified: u128, output_modified: Option<u128>) -> (r: bool)
    ensures
        r == match output_modified {
            Some(t) => !force && input_modified < t,
            None => false,
        },
{
    match output_modified {
        Some(t) => !force && input_modified < t,
        None => false,
    }
}

} // verus!
