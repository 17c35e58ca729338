//! Text as sequences of characters: searching, splitting, trimming, joining
//! and ordering.

use vstd::prelude::*;
use vstd::string::*;

verus! {

/// The texts that a sequence of owned strings holds.
pub open spec fn strings(v: Seq<String>) -> Seq<Seq<char>> {
    Seq::new(v.len(), |i: int| v[i]@)
}

/// The texts that a sequence of borrowed strings holds.
pub open spec fn strs(v: Seq<&str>) -> Seq<Seq<char>> {
    Seq::new(v.len(), |i: int| v[i]@)
}

/// The text of an optional string.
pub open spec fn opt_text(s: Option<String>) -> Option<Seq<char>> {
    match s {
        Some(t) => Some(t@),
        None => None,
    }
}

/// The text of an optional borrowed string.
pub open spec fn opt_str(s: Option<&str>) -> Option<Seq<char>> {
    match s {
        Some(t) => Some(t@),
        None => None,
    }
}

/// The characters of `s`, one per element.
pub fn chars_of(s: &str) -> (v: Vec<char>)
    ensures
        v@ == s@,
{
    let mut v: Vec<char> = Vec::new();
    for c in it: s.chars()
        invariant
            it.seq() == s@,
            v@ == s@.take(it.index()),
    {
        v.push(c);
        assert(s@.take(it.index() + 1) == s@.take(it.index()).push(s@[it.index()]));
    }
    assert(s@.take(s@.len() as int) == s@);
    v
}

/// Whether two texts are the same.
pub fn same(a: &str, b: &str) -> (r: bool)
    ensures
        r == (a@ == b@),
{
    a.to_owned() == b.to_owned()
}

/// Two texts, one after the other.
pub fn cat(a: &str, b: &str) -> (r: String)
    ensures
        r@ == a@ + b@,
{
    let mut r: String = a.to_owned();
    r.append(b);
    r
}

/// Three texts, one after the other.
pub fn cat3(a: &str, b: &str, c: &str) -> (r: String)
    ensures
        r@ == a@ + b@ + c@,
{
    let mut r: String = cat(a, b);
    r.append(c);
    r
}

// ---------------------------------------------------------------------------
// Searching
// ---------------------------------------------------------------------------

/// `needle` stands in `hay` at position `i`.
pub open spec fn occurs_at(hay: Seq<char>, needle: Seq<char>, i: int) -> bool {
    &&& 0 <= i
    &&& i + needle.len() <= hay.len()
    &&& hay.subrange(i, i + needle.len()) == needle
}

/// `needle` stands somewhere in `hay`.
pub open spec fn contains(hay: Seq<char>, needle: Seq<char>) -> bool {
    exists|i: int| occurs_at(hay, needle, i)
}

/// `text` begins with `prefix`.
pub open spec fn starts_with(text: Seq<char>, prefix: Seq<char>) -> bool {
    occurs_at(text, prefix, 0)
}

/// `text` ends with `suffix`.
pub open spec fn ends_with(text: Seq<char>, suffix: Seq<char>) -> bool {
    suffix.len() <= text.len() && text.skip(text.len() - suffix.len()) == suffix
}

/// The last position at which `needle` stands in `hay`.
pub open spec fn rfind(hay: Seq<char>, needle: Seq<char>) -> Option<int>
    decreases hay.len(),
{
    if needle.len() > hay.len() {
        None
    } else if occurs_at(hay, needle, hay.len() - needle.len()) {
        Some(hay.len() - needle.len())
    } else if hay.len() == 0 {
        None
    } else {
        rfind(hay.drop_last(), needle)
    }
}

fn occurs_at_exec(hay: &Vec<char>, needle: &Vec<char>, i: usize) -> (r: bool)
    requires
        i + needle@.len() <= hay@.len(),
    ensures
        r == occurs_at(hay@, needle@, i as int),
{
    let total: usize = hay.len();
    let mut k: usize = 0;
    while k < needle.len()
        invariant
            k <= needle@.len(),
            total == hay@.len(),
            i + needle@.len() <= total,
            forall|j: int| 0 <= j < k ==> hay@[i + j] == needle@[j],
        decreases needle@.len() - k,
    {
        if hay[i + k] != needle[k] {
            proof {
                let part = hay@.subrange(i as int, i + needle@.len());
                assert(part[k as int] == hay@[i + k]);
            }
            return false;
        }
        k += 1;
    }
    assert(hay@.subrange(i as int, i + needle@.len()) =~= needle@);
    true
}

/// Whether `needle` stands somewhere in `text`.
pub fn has(text: &str, needle: &str) -> (r: bool)
    ensures
        r == contains(text@, needle@),
{
    let hay: Vec<char> = chars_of(text);
    let pat: Vec<char> = chars_of(needle);
    if pat.len() > hay.len() {
        return false;
    }
    let last: usize = hay.len() - pat.len();
    let mut i: usize = 0;
    while i <= last
        invariant
            hay@ == text@,
            pat@ == needle@,
            pat@.len() <= hay@.len(),
            last == hay@.len() - pat@.len(),
            i <= last + 1,
            last < usize::MAX || i <= last,
            forall|j: int| 0 <= j < i ==> !occurs_at(hay@, pat@, j),
        decreases last + 1 - i,
    {
        if occurs_at_exec(&hay, &pat, i) {
            return true;
        }
        if i == last {
            assert(forall|j: int| !occurs_at(text@, needle@, j));
            return false;
        }
        i += 1;
    }
    false
}

/// Whether `text` begins with `prefix`.
pub fn begins(text: &str, prefix: &str) -> (r: bool)
    ensures
        r == starts_with(text@, prefix@),
{
    let hay: Vec<char> = chars_of(text);
    let pat: Vec<char> = chars_of(prefix);
    pat.len() <= hay.len() && occurs_at_exec(&hay, &pat, 0)
}

/// What follows `prefix` in `text`, if `text` begins with it.
pub open spec fn strip_prefix(text: Seq<char>, prefix: Seq<char>) -> Option<Seq<char>> {
    if starts_with(text, prefix) {
        Some(text.skip(prefix.len() as int))
    } else {
        None
    }
}

/// What follows `prefix` in `text`, if `text` begins with it.
pub fn after_prefix<'a>(text: &'a str, prefix: &str) -> (r: Option<&'a str>)
    ensures
        opt_str(r) == strip_prefix(text@, prefix@),
{
    if begins(text, prefix) {
        let n: usize = prefix.unicode_len();
        let len: usize = text.unicode_len();
        let rest: &str = text.substring_char(n, len);
        assert(rest@ == text@.skip(prefix@.len() as int));
        Some(rest)
    } else {
        None
    }
}

/// The last position of a match is a match, and no later position is one.
pub proof fn rfind_is_the_last_match(hay: Seq<char>, needle: Seq<char>)
    ensures
        match rfind(hay, needle) {
            Some(i) => {
                &&& occurs_at(hay, needle, i)
                &&& forall|j: int| i < j ==> !occurs_at(hay, needle, j)
            },
            None => !contains(hay, needle),
        },
    decreases hay.len(),
{
    if needle.len() <= hay.len() && hay.len() > 0 && !occurs_at(
        hay,
        needle,
        hay.len() - needle.len(),
    ) {
        let init = hay.drop_last();
        rfind_is_the_last_match(init, needle);
        assert forall|j: int| j + needle.len() < hay.len() implies occurs_at(hay, needle, j)
            == occurs_at(init, needle, j) by {
            if 0 <= j {
                assert(hay.subrange(j, j + needle.len()) =~= init.subrange(j, j + needle.len()));
            }
        }
        assert forall|j: int| j + needle.len() >= hay.len() implies !occurs_at(hay, needle, j) by {
            if j + needle.len() == hay.len() {
                assert(j == hay.len() - needle.len());
            }
        }
        if rfind(hay, needle) is None {
            assert forall|j: int| !occurs_at(hay, needle, j) by {
                if j + needle.len() < hay.len() {
                    assert(!occurs_at(init, needle, j));
                }
            }
        }
    }
}

/// The last position at which `needle` stands in `text`.
pub fn find_last(text: &str, needle: &str) -> (r: Option<usize>)
    ensures
        match r {
            Some(i) => rfind(text@, needle@) == Some(i as int),
            None => rfind(text@, needle@) is None,
        },
{
    let hay: Vec<char> = chars_of(text);
    let pat: Vec<char> = chars_of(needle);
    if pat.len() > hay.len() {
        return None;
    }
    let mut i: usize = hay.len() - pat.len();
    proof {
        assert(hay@.take(i + pat@.len()) =~= hay@);
    }
    loop
        invariant
            hay@ == text@,
            pat@ == needle@,
            i + pat@.len() <= hay@.len(),
            rfind(text@, needle@) == rfind(hay@.take(i + pat@.len()), pat@),
        decreases i,
    {
        let ghost head = hay@.take(i + pat@.len());
        proof {
            assert(head.subrange(i as int, i + pat@.len()) =~= hay@.subrange(
                i as int,
                i + pat@.len(),
            ));
        }
        if occurs_at_exec(&hay, &pat, i) {
            return Some(i);
        }
        if i == 0 {
            proof {
                assert(head.len() > 0) by {
                    if head.len() == 0 {
                        assert(hay@.subrange(0, 0) =~= pat@);
                    }
                }
                assert(rfind(head.drop_last(), pat@) is None);
            }
            return None;
        }
        proof {
            assert(head.drop_last() =~= hay@.take(i - 1 + pat@.len()));
        }
        i -= 1;
    }
}

// ---------------------------------------------------------------------------
// Splitting
// ---------------------------------------------------------------------------

/// White space: the characters with Unicode's White_Space property.
pub open spec fn is_space(c: char) -> bool {
    ||| '\u{9}' <= c <= '\u{d}'
    ||| c == '\u{20}'
    ||| c == '\u{85}'
    ||| c == '\u{a0}'
    ||| c == '\u{1680}'
    ||| '\u{2000}' <= c <= '\u{200a}'
    ||| c == '\u{2028}'
    ||| c == '\u{2029}'
    ||| c == '\u{202f}'
    ||| c == '\u{205f}'
    ||| c == '\u{3000}'
}

/// Whether `c` is white space.
pub fn space(c: char) -> (r: bool)
    ensures
        r == is_space(c),
{
    ('\u{9}' <= c && c <= '\u{d}') || c == '\u{20}' || c == '\u{85}' || c == '\u{a0}' || c
        == '\u{1680}' || ('\u{2000}' <= c && c <= '\u{200a}') || c == '\u{2028}' || c == '\u{2029}'
        || c == '\u{202f}' || c == '\u{205f}' || c == '\u{3000}'
}

/// What parts the pieces of a text.
#[derive(Clone, Copy)]
pub enum Separator {
    /// One given character.
    Char(char),
    /// Any white space character.
    Space,
}

impl Separator {
    /// `c` is a separator.
    pub open spec fn holds(self, c: char) -> bool {
        match self {
            Separator::Char(d) => c == d,
            Separator::Space => is_space(c),
        }
    }

    fn is(self, c: char) -> (r: bool)
        ensures
            r == self.holds(c),
    {
        match self {
            Separator::Char(d) => c == d,
            Separator::Space => space(c),
        }
    }
}

/// The pieces of `s` between separators, the empty ones too: one more than
/// there are separators.
pub open spec fn fields(s: Seq<char>, sep: Separator) -> Seq<Seq<char>>
    decreases s.len(),
{
    if s.len() == 0 {
        seq![Seq::empty()]
    } else {
        let init = fields(s.drop_last(), sep);
        if sep.holds(s.last()) {
            init.push(Seq::empty())
        } else {
            init.drop_last().push(init.last().push(s.last()))
        }
    }
}

/// There is always at least one piece.
pub proof fn fields_are_some(s: Seq<char>, sep: Separator)
    ensures
        fields(s, sep).len() >= 1,
    decreases s.len(),
{
    if s.len() > 0 {
        fields_are_some(s.drop_last(), sep);
    }
}

/// The pieces of `s` between separators, the empty ones too.
pub fn split(s: &str, sep: Separator) -> (r: Vec<String>)
    ensures
        strings(r@) == fields(s@, sep),
{
    let chars: Vec<char> = chars_of(s);
    let mut r: Vec<String> = Vec::new();
    let mut start: usize = 0;
    let mut i: usize = 0;
    proof {
        assert(s@.take(0) =~= Seq::<char>::empty());
        assert(s@.subrange(0, 0) =~= Seq::<char>::empty());
        assert(strings(r@).push(s@.subrange(0, 0)) =~= seq![Seq::<char>::empty()]);
    }
    while i < chars.len()
        invariant
            chars@ == s@,
            start <= i <= s@.len(),
            fields(s@.take(i as int), sep) == strings(r@).push(
                s@.subrange(start as int, i as int),
            ),
        decreases s@.len() - i,
    {
        let c: char = chars[i];
        let ghost head = s@.take(i + 1);
        let ghost before = strings(r@);
        proof {
            assert(head.drop_last() =~= s@.take(i as int));
            assert(head.last() == c);
            let p = before.push(s@.subrange(start as int, i as int));
            assert(p.drop_last() =~= before);
            assert(s@.subrange(start as int, i as int).push(c) =~= s@.subrange(
                start as int,
                i + 1,
            ));
        }
        if sep.is(c) {
            r.push(s.substring_char(start, i).to_owned());
            start = i + 1;
            proof {
                assert(strings(r@) =~= before.push(
                    fields(s@.take(i as int), sep).last(),
                ));
                assert(s@.subrange(start as int, i + 1) =~= Seq::<char>::empty());
            }
        }
        i += 1;
    }
    r.push(s.substring_char(start, i).to_owned());
    proof {
        assert(s@.take(i as int) =~= s@);
        assert(strings(r@) =~= fields(s@, sep));
    }
    r
}

/// `s` without a carriage return at its end.
pub open spec fn strip_cr(s: Seq<char>) -> Seq<char> {
    if s.len() > 0 && s.last() == '\r' {
        s.drop_last()
    } else {
        s
    }
}

/// The lines of `s`. A line ends with a newline, and a carriage return right
/// before the newline goes with it; the last line needs no newline.
pub open spec fn lines(s: Seq<char>) -> Seq<Seq<char>> {
    let parts = fields(s, Separator::Char('\n'));
    let ended = Seq::new((parts.len() - 1) as nat, |i: int| strip_cr(parts[i]));
    if parts.last().len() == 0 {
        ended
    } else {
        ended.push(parts.last())
    }
}

fn without_cr(s: &str) -> (r: String)
    ensures
        r@ == strip_cr(s@),
{
    let n: usize = s.unicode_len();
    if n > 0 && s.get_char(n - 1) == '\r' {
        proof {
            assert(s@.drop_last() =~= s@.subrange(0, n - 1));
        }
        s.substring_char(0, n - 1).to_owned()
    } else {
        s.to_owned()
    }
}

/// The lines of `s`.
pub fn split_lines(s: &str) -> (r: Vec<String>)
    ensures
        strings(r@) == lines(s@),
{
    let parts: Vec<String> = split(s, Separator::Char('\n'));
    let ghost all = fields(s@, Separator::Char('\n'));
    proof {
        fields_are_some(s@, Separator::Char('\n'));
        assert(parts@.len() == all.len());
        assert forall|i: int| 0 <= i < all.len() implies parts@[i]@ == all[i] by {
            assert(strings(parts@)[i] == all[i]);
        }
    }
    let last: usize = parts.len() - 1;
    let mut r: Vec<String> = Vec::new();
    let mut i: usize = 0;
    while i < last
        invariant
            i <= last,
            last < parts@.len(),
            parts@.len() == all.len(),
            last == all.len() - 1,
            forall|j: int| 0 <= j < all.len() ==> parts@[j]@ == all[j],
            r@.len() == i,
            forall|j: int| 0 <= j < i ==> r@[j]@ == strip_cr(all[j]),
        decreases last - i,
    {
        r.push(without_cr(parts[i].as_str()));
        i += 1;
    }
    if !parts[last].as_str().is_empty() {
        r.push(parts[last].clone());
    }
    assert(strings(r@) =~= lines(s@));
    r
}

/// The pieces that hold at least one character.
pub open spec fn nonempty(parts: Seq<Seq<char>>) -> Seq<Seq<char>> {
    parts.filter(|p: Seq<char>| p.len() > 0)
}

/// The words of `s`: its longest stretches without white space.
pub open spec fn words(s: Seq<char>) -> Seq<Seq<char>> {
    nonempty(fields(s, Separator::Space))
}

/// The words of `s`.
pub fn split_words(s: &str) -> (r: Vec<String>)
    ensures
        strings(r@) == words(s@),
{
    let parts: Vec<String> = split(s, Separator::Space);
    let ghost all = fields(s@, Separator::Space);
    let mut r: Vec<String> = Vec::new();
    let mut i: usize = 0;
    proof {
        reveal(Seq::filter);
        assert(all.take(0) =~= Seq::<Seq<char>>::empty());
        assert(strings(r@) =~= nonempty(all.take(0)));
    }
    while i < parts.len()
        invariant
            i <= parts@.len(),
            strings(parts@) == all,
            strings(r@) == nonempty(all.take(i as int)),
        decreases parts@.len() - i,
    {
        proof {
            reveal(Seq::filter);
            assert(all.take(i + 1).drop_last() =~= all.take(i as int));
            assert(all.take(i + 1).last() == all[i as int]);
            assert(strings(parts@)[i as int] == parts@[i as int]@);
        }
        let ghost before = strings(r@);
        if !parts[i].as_str().is_empty() {
            r.push(parts[i].clone());
            proof {
                assert(strings(r@) =~= before.push(all[i as int]));
            }
        }
        i += 1;
    }
    proof {
        assert(all.take(i as int) =~= all);
    }
    r
}

/// Word number `n` of `s`, counted from 0.
pub open spec fn word(s: Seq<char>, n: int) -> Option<Seq<char>> {
    if 0 <= n < words(s).len() {
        Some(words(s)[n])
    } else {
        None
    }
}

/// Word number `n` of `s`, counted from 0.
pub fn nth_word(s: &str, n: usize) -> (r: Option<String>)
    ensures
        opt_text(r) == word(s@, n as int),
{
    let all: Vec<String> = split_words(s);
    if n < all.len() {
        proof {
            assert(strings(all@)[n as int] == all@[n as int]@);
        }
        Some(all[n].clone())
    } else {
        None
    }
}

// ---------------------------------------------------------------------------
// Trimming
// ---------------------------------------------------------------------------

/// `s` without the separators at its start.
pub open spec fn trim_start(s: Seq<char>, sep: Separator) -> Seq<char>
    decreases s.len(),
{
    if s.len() > 0 && sep.holds(s.first()) {
        trim_start(s.drop_first(), sep)
    } else {
        s
    }
}

/// `s` without the separators at its end.
pub open spec fn trim_end(s: Seq<char>, sep: Separator) -> Seq<char>
    decreases s.len(),
{
    if s.len() > 0 && sep.holds(s.last()) {
        trim_end(s.drop_last(), sep)
    } else {
        s
    }
}

/// `s` without the white space at its two ends.
pub open spec fn trim(s: Seq<char>) -> Seq<char> {
    trim_end(trim_start(s, Separator::Space), Separator::Space)
}

/// `s` without the separators at its start.
pub fn without_leading<'a>(s: &'a str, sep: Separator) -> (r: &'a str)
    ensures
        r@ == trim_start(s@, sep),
{
    let chars: Vec<char> = chars_of(s);
    let mut i: usize = 0;
    proof {
        assert(s@.skip(0) =~= s@);
    }
    while i < chars.len() && sep.is(chars[i])
        invariant
            chars@ == s@,
            i <= s@.len(),
            trim_start(s@, sep) == trim_start(s@.skip(i as int), sep),
        decreases s@.len() - i,
    {
        proof {
            assert(s@.skip(i as int).drop_first() =~= s@.skip(i + 1));
        }
        i += 1;
    }
    let r: &str = s.substring_char(i, chars.len());
    assert(r@ =~= s@.skip(i as int));
    r
}

/// `s` without the separators at its end.
pub fn without_trailing<'a>(s: &'a str, sep: Separator) -> (r: &'a str)
    ensures
        r@ == trim_end(s@, sep),
{
    let chars: Vec<char> = chars_of(s);
    let mut n: usize = chars.len();
    proof {
        assert(s@.take(n as int) =~= s@);
    }
    while n > 0 && sep.is(chars[n - 1])
        invariant
            chars@ == s@,
            n <= s@.len(),
            trim_end(s@, sep) == trim_end(s@.take(n as int), sep),
        decreases n,
    {
        proof {
            assert(s@.take(n as int).drop_last() =~= s@.take(n - 1));
        }
        n -= 1;
    }
    let r: &str = s.substring_char(0, n);
    assert(r@ =~= s@.take(n as int));
    r
}

/// `s` without the white space at its two ends.
pub fn trimmed<'a>(s: &'a str) -> (r: &'a str)
    ensures
        r@ == trim(s@),
{
    without_trailing(without_leading(s, Separator::Space), Separator::Space)
}

// ---------------------------------------------------------------------------
// Joining
// ---------------------------------------------------------------------------

/// The texts in order, with `sep` between each two.
pub open spec fn join(parts: Seq<Seq<char>>, sep: Seq<char>) -> Seq<char>
    decreases parts.len(),
{
    if parts.len() == 0 {
        Seq::empty()
    } else if parts.len() == 1 {
        parts[0]
    } else {
        join(parts.drop_last(), sep) + sep + parts.last()
    }
}

/// The texts in order, with `sep` between each two.
pub fn joined(parts: &Vec<&str>, sep: &str) -> (r: String)
    ensures
        r@ == join(strs(parts@), sep@),
{
    let mut r: String = String::new();
    let mut i: usize = 0;
    let ghost all = strs(parts@);
    proof {
        assert(all.take(0) =~= Seq::<Seq<char>>::empty());
    }
    while i < parts.len()
        invariant
            i <= parts@.len(),
            all == strs(parts@),
            r@ == join(all.take(i as int), sep@),
        decreases parts@.len() - i,
    {
        proof {
            assert(all.take(i + 1).drop_last() =~= all.take(i as int));
            assert(all.take(i + 1).last() == parts@[i as int]@);
        }
        if i > 0 {
            r.append(sep);
        }
        r.append(parts[i]);
        proof {
            if i == 0 {
                assert(r@ =~= parts@[0]@);
            }
        }
        i += 1;
    }
    proof {
        assert(all.take(i as int) =~= all);
    }
    r
}

/// Borrows every text of a list.
pub fn borrowed(v: &Vec<String>) -> (r: Vec<&str>)
    ensures
        strs(r@) == strings(v@),
{
    let mut r: Vec<&str> = Vec::new();
    let mut i: usize = 0;
    while i < v.len()
        invariant
            i <= v@.len(),
            r@.len() == i,
            forall|j: int| 0 <= j < i ==> r@[j]@ == v@[j]@,
        decreases v@.len() - i,
    {
        r.push(v[i].as_str());
        i += 1;
    }
    assert(strs(r@) =~= strings(v@));
    r
}

/// Owns a copy of every text of a list.
pub fn owned_list(v: Vec<&str>) -> (r: Vec<String>)
    ensures
        strings(r@) == strs(v@),
{
    let mut r: Vec<String> = Vec::new();
    let mut i: usize = 0;
    while i < v.len()
        invariant
            i <= v@.len(),
            r@.len() == i,
            forall|j: int| 0 <= j < i ==> r@[j]@ == v@[j]@,
        decreases v@.len() - i,
    {
        r.push(v[i].to_owned());
        i += 1;
    }
    assert(strings(r@) =~= strs(v@));
    r
}

// ---------------------------------------------------------------------------
// Letter case
// ---------------------------------------------------------------------------

/// `c` in lower case, if it is an ASCII letter.
pub open spec fn lower_char(c: char) -> char {
    if 'A' <= c <= 'Z' {
        (c as u32 + 32) as char
    } else {
        c
    }
}

/// `s` with its ASCII letters in lower case.
pub open spec fn lower(s: Seq<char>) -> Seq<char> {
    Seq::new(s.len(), |i: int| lower_char(s[i]))
}

fn lower_char_exec(c: char) -> (r: char)
    ensures
        r == lower_char(c),
{
    if 'A' <= c && c <= 'Z' {
        (c as u8 + 32) as char
    } else {
        c
    }
}

/// Whether `s`, with its ASCII letters in lower case, is `target`.
pub fn same_lower(s: &str, target: &str) -> (r: bool)
    ensures
        r == (lower(s@) == target@),
{
    let a: Vec<char> = chars_of(s);
    let b: Vec<char> = chars_of(target);
    if a.len() != b.len() {
        assert(lower(s@).len() != target@.len());
        return false;
    }
    let mut i: usize = 0;
    while i < a.len()
        invariant
            a@ == s@,
            b@ == target@,
            a@.len() == b@.len(),
            i <= a@.len(),
            forall|j: int| 0 <= j < i ==> lower_char(a@[j]) == b@[j],
        decreases a@.len() - i,
    {
        if lower_char_exec(a[i]) != b[i] {
            assert(lower(s@)[i as int] != target@[i as int]);
            return false;
        }
        i += 1;
    }
    assert(lower(s@) =~= target@);
    true
}

// ---------------------------------------------------------------------------
// Order
// ---------------------------------------------------------------------------

/// `a` comes before `b` in a dictionary of code points, or is `b`.
pub open spec fn ordered(a: Seq<char>, b: Seq<char>) -> bool
    decreases a.len(),
{
    if a.len() == 0 {
        true
    } else if b.len() == 0 {
        false
    } else if a[0] != b[0] {
        a[0] < b[0]
    } else {
        ordered(a.drop_first(), b.drop_first())
    }
}

/// Of two texts one comes before the other.
pub proof fn ordered_is_total(a: Seq<char>, b: Seq<char>)
    ensures
        ordered(a, b) || ordered(b, a),
    decreases a.len(),
{
    if a.len() > 0 && b.len() > 0 {
        ordered_is_total(a.drop_first(), b.drop_first());
    }
}

/// The order carries over from one pair of texts to the next.
pub proof fn ordered_is_transitive(a: Seq<char>, b: Seq<char>, c: Seq<char>)
    requires
        ordered(a, b),
        ordered(b, c),
    ensures
        ordered(a, c),
    decreases a.len(),
{
    if a.len() > 0 && b.len() > 0 && c.len() > 0 && a[0] == b[0] && b[0] == c[0] {
        ordered_is_transitive(a.drop_first(), b.drop_first(), c.drop_first());
    }
}

/// Whether `a` comes before `b`, or is `b`.
pub fn in_order(a: &str, b: &str) -> (r: bool)
    ensures
        r == ordered(a@, b@),
{
    let x: Vec<char> = chars_of(a);
    let y: Vec<char> = chars_of(b);
    let mut i: usize = 0;
    proof {
        assert(a@.skip(0) =~= a@);
        assert(b@.skip(0) =~= b@);
    }
    while i < x.len() && i < y.len()
        invariant
            x@ == a@,
            y@ == b@,
            i <= x@.len(),
            i <= y@.len(),
            ordered(a@, b@) == ordered(a@.skip(i as int), b@.skip(i as int)),
        decreases x@.len() - i,
    {
        if x[i] != y[i] {
            return x[i] < y[i];
        }
        proof {
            assert(a@.skip(i as int).drop_first() =~= a@.skip(i + 1));
            assert(b@.skip(i as int).drop_first() =~= b@.skip(i + 1));
        }
        i += 1;
    }
    i == x.len()
}

// ---------------------------------------------------------------------------
// Laws of searching
// ---------------------------------------------------------------------------

/// A text contains whatever stands between a beginning and an end of it.
pub proof fn parts_are_contained(a: Seq<char>, needle: Seq<char>, b: Seq<char>)
    ensures
        contains(a + needle + b, needle),
        starts_with(needle + b, needle),
        ends_with(a + needle, needle),
{
    let hay = a + needle + b;
    let n: int = a.len() as int;
    let m: int = needle.len() as int;
    assert(hay.subrange(n, n + m) =~= needle);
    assert(occurs_at(hay, needle, n));
    assert((needle + b).subrange(0, m) =~= needle);
    assert((a + needle).skip((a + needle).len() - needle.len()) =~= needle);
}

/// What a text contains stands between a beginning and an end of it; what it
/// begins with is followed by an end, and what it ends with follows a
/// beginning.
pub proof fn contained_texts_are_parts(hay: Seq<char>, needle: Seq<char>)
    ensures
        contains(hay, needle) ==> exists|a: Seq<char>, b: Seq<char>|
            hay == #[trigger] (a + needle + b),
        starts_with(hay, needle) ==> exists|b: Seq<char>| hay == #[trigger] (needle + b),
        ends_with(hay, needle) ==> exists|a: Seq<char>| hay == #[trigger] (a + needle),
{
    if contains(hay, needle) {
        let i = choose|i: int| occurs_at(hay, needle, i);
        let a = hay.take(i);
        let b = hay.skip(i + needle.len());
        assert forall|k: int| 0 <= k < needle.len() implies hay[i + k] == #[trigger] needle[k] by {
            assert(hay.subrange(i, i + needle.len())[k] == needle[k]);
        }
        assert(hay =~= a + needle + b);
    }
    if starts_with(hay, needle) {
        assert(hay =~= needle + hay.skip(needle.len() as int));
    }
    if ends_with(hay, needle) {
        assert(hay =~= hay.take(hay.len() - needle.len()) + needle);
    }
}

// ---------------------------------------------------------------------------
// Laws of splitting
// ---------------------------------------------------------------------------

/// A text without separators is one piece. A separator parts the pieces before
/// it from those after it.
pub proof fn separators_part_pieces(a: Seq<char>, d: char, b: Seq<char>, sep: Separator)
    ensures
        (forall|i: int| 0 <= i < a.len() ==> !sep.holds(#[trigger] a[i])) ==> fields(a, sep)
            == seq![a],
        sep.holds(d) ==> fields(a.push(d) + b, sep) == fields(a, sep) + fields(b, sep),
    decreases a.len() + b.len(),
{
    if forall|i: int| 0 <= i < a.len() ==> !sep.holds(#[trigger] a[i]) {
        if a.len() == 0 {
            assert(a =~= Seq::<char>::empty());
        } else {
            let init = a.drop_last();
            assert forall|i: int| 0 <= i < init.len() implies !sep.holds(#[trigger] init[i]) by {
                assert(init[i] == a[i]);
            }
            separators_part_pieces(init, d, Seq::empty(), sep);
            assert(!sep.holds(a[a.len() - 1]));
            assert(init.push(a.last()) =~= a);
            assert(fields(a, sep) =~= seq![a]);
        }
    }
    if sep.holds(d) {
        let whole = a.push(d) + b;
        if b.len() == 0 {
            assert(whole =~= a.push(d));
            assert(whole.drop_last() =~= a);
            assert(fields(whole, sep) =~= fields(a, sep) + fields(b, sep));
        } else {
            let init = b.drop_last();
            separators_part_pieces(a, d, init, sep);
            fields_are_some(init, sep);
            assert(whole.drop_last() =~= a.push(d) + init);
            assert(whole.last() == b.last());
            let f = fields(a, sep);
            let g = fields(init, sep);
            assert((f + g).drop_last() =~= f + g.drop_last());
            assert((f + g).last() == g.last());
            assert(fields(whole, sep) =~= f + fields(b, sep));
        }
    }
}

/// A text without white space is one word, unless it is empty: an empty text
/// has no word. White space parts the words before it from those after it.
pub proof fn white_space_parts_words(a: Seq<char>, d: char, b: Seq<char>)
    ensures
        words(Seq::empty()) == Seq::<Seq<char>>::empty(),
        a.len() > 0 && (forall|i: int| 0 <= i < a.len() ==> !is_space(#[trigger] a[i])) ==> words(a)
            == seq![a],
        is_space(d) ==> words(a.push(d) + b) == words(a) + words(b),
{
    reveal(Seq::filter);
    let sep = Separator::Space;
    let p = |p: Seq<char>| p.len() > 0;
    let none = seq![Seq::<char>::empty()];
    assert(none.drop_last() =~= Seq::<Seq<char>>::empty());
    assert(fields(Seq::empty(), sep) =~= none);
    assert(nonempty(none.drop_last()) =~= Seq::<Seq<char>>::empty());
    assert(none.last().len() == 0);
    assert(nonempty(none) =~= nonempty(none.drop_last()));
    separators_part_pieces(a, d, b, sep);
    if a.len() > 0 && (forall|i: int| 0 <= i < a.len() ==> !is_space(#[trigger] a[i])) {
        assert forall|i: int| 0 <= i < a.len() implies !sep.holds(#[trigger] a[i]) by {}
        assert(seq![a].drop_last() =~= Seq::<Seq<char>>::empty());
        assert(words(a) =~= seq![a]);
    }
    if is_space(d) {
        Seq::filter_distributes_over_add(fields(a, sep), fields(b, sep), p);
    }
}

/// A newline ends a line, with the carriage return right before it, and the
/// rest of the text is read on. Text after the last newline is a line too, with
/// all of its characters.
pub proof fn newlines_end_lines(line: Seq<char>, rest: Seq<char>)
    requires
        forall|i: int| 0 <= i < line.len() ==> #[trigger] line[i] != '\n',
    ensures
        lines(Seq::empty()) == Seq::<Seq<char>>::empty(),
        line.len() > 0 ==> lines(line) == seq![line],
        line.len() == 0 || line.last() != '\r' ==> lines(line.push('\n') + rest) == seq![line]
            + lines(rest),
        lines(line + seq!['\r', '\n'] + rest) == seq![line] + lines(rest),
{
    assert(lines(Seq::empty()) =~= Seq::<Seq<char>>::empty());
    line_is_read_first(line, rest);
    let sep = Separator::Char('\n');
    assert forall|i: int| 0 <= i < line.len() implies !sep.holds(#[trigger] line[i]) by {}
    separators_part_pieces(line, '\n', rest, sep);
    if line.len() > 0 {
        assert(lines(line) =~= seq![line]);
    }
    let ended = line.push('\r');
    assert forall|i: int| 0 <= i < ended.len() implies #[trigger] ended[i] != '\n' by {
        if i < line.len() {
            assert(ended[i] == line[i]);
        }
    }
    line_is_read_first(ended, rest);
    assert(ended.drop_last() =~= line);
    assert(ended.push('\n') + rest =~= line + seq!['\r', '\n'] + rest);
}

proof fn line_is_read_first(line: Seq<char>, rest: Seq<char>)
    requires
        forall|i: int| 0 <= i < line.len() ==> #[trigger] line[i] != '\n',
    ensures
        lines(line.push('\n') + rest) == seq![strip_cr(line)] + lines(rest),
{
    let sep = Separator::Char('\n');
    assert forall|i: int| 0 <= i < line.len() implies !sep.holds(#[trigger] line[i]) by {}
    separators_part_pieces(line, '\n', rest, sep);
    fields_are_some(rest, sep);
    let f = fields(rest, sep);
    let whole = line.push('\n') + rest;
    assert(fields(whole, sep) == seq![line] + f);
    assert(fields(whole, sep).last() == f.last());
    assert forall|i: int| 0 <= i < f.len() implies #[trigger] fields(whole, sep)[i + 1]
        == f[i] by {}
    assert(lines(whole) =~= seq![strip_cr(line)] + lines(rest));
}

/// What is trimmed off is white space, and what is left neither begins nor
/// ends with white space.
pub proof fn only_white_space_is_trimmed(s: Seq<char>) -> (r: (Seq<char>, Seq<char>))
    ensures
        s == r.0 + trim(s) + r.1,
        forall|i: int| 0 <= i < r.0.len() ==> is_space(#[trigger] r.0[i]),
        forall|i: int| 0 <= i < r.1.len() ==> is_space(#[trigger] r.1[i]),
        trim(s).len() > 0 ==> !is_space(trim(s).first()) && !is_space(trim(s).last()),
{
    let a = trimmed_before(s);
    let t = trim_start(s, Separator::Space);
    let b = trimmed_after(t);
    assert(s =~= a + trim(s) + b);
    (a, b)
}

proof fn trimmed_before(s: Seq<char>) -> (a: Seq<char>)
    ensures
        s == a + trim_start(s, Separator::Space),
        forall|i: int| 0 <= i < a.len() ==> is_space(#[trigger] a[i]),
        trim_start(s, Separator::Space).len() > 0 ==> !is_space(
            trim_start(s, Separator::Space).first(),
        ),
    decreases s.len(),
{
    if s.len() > 0 && is_space(s.first()) {
        let a = trimmed_before(s.drop_first());
        let r = seq![s.first()] + a;
        assert forall|i: int| 0 <= i < r.len() implies is_space(#[trigger] r[i]) by {
            if i > 0 {
                assert(r[i] == a[i - 1]);
            }
        }
        assert(s =~= r + trim_start(s, Separator::Space)) by {
            assert(s =~= seq![s.first()] + s.drop_first());
        }
        r
    } else {
        assert(s =~= Seq::<char>::empty() + s);
        Seq::empty()
    }
}

proof fn trimmed_after(s: Seq<char>) -> (b: Seq<char>)
    ensures
        s == trim_end(s, Separator::Space) + b,
        forall|i: int| 0 <= i < b.len() ==> is_space(#[trigger] b[i]),
        trim_end(s, Separator::Space).len() > 0 ==> !is_space(
            trim_end(s, Separator::Space).last(),
        ) && trim_end(s, Separator::Space).first() == s.first(),
    decreases s.len(),
{
    if s.len() > 0 && is_space(s.last()) {
        let b = trimmed_after(s.drop_last());
        let r = b.push(s.last());
        assert forall|i: int| 0 <= i < r.len() implies is_space(#[trigger] r[i]) by {
            if i < b.len() {
                assert(r[i] == b[i]);
            }
        }
        assert(s =~= trim_end(s, Separator::Space) + r) by {
            assert(s =~= s.drop_last().push(s.last()));
        }
        r
    } else {
        assert(s =~= s + Seq::<char>::empty());
        Seq::empty()
    }
}

/// Joining one text gives it as it is, and joining two lists puts the
/// separator between what each of them gives.
pub proof fn joining_keeps_all_texts(
    a: Seq<Seq<char>>,
    b: Seq<Seq<char>>,
    t: Seq<char>,
    sep: Seq<char>,
)
    ensures
        join(Seq::empty(), sep) == Seq::<char>::empty(),
        join(seq![t], sep) == t,
        a.len() > 0 && b.len() > 0 ==> join(a + b, sep) == join(a, sep) + sep + join(b, sep),
    decreases b.len(),
{
    if a.len() > 0 && b.len() > 0 {
        let init = b.drop_last();
        assert((a + b).drop_last() =~= a + init);
        assert((a + b).last() == b.last());
        if init.len() == 0 {
            assert(a + init =~= a);
        } else {
            joining_keeps_all_texts(a, init, t, sep);
            assert(join(a + b, sep) =~= join(a, sep) + sep + join(b, sep));
        }
    }
}

/// Of two texts the one comes first that has the lesser character where they
/// begin to differ, or that ends there.
pub proof fn first_difference_decides(a: Seq<char>, b: Seq<char>, k: int)
    requires
        0 <= k <= a.len(),
        k <= b.len(),
        a.take(k) == b.take(k),
    ensures
        k == a.len() ==> ordered(a, b),
        k < a.len() && k == b.len() ==> !ordered(a, b),
        k < a.len() && k < b.len() && a[k] != b[k] ==> (ordered(a, b) <==> a[k] < b[k]),
    decreases k,
{
    if k > 0 {
        assert(a.take(k)[0] == a[0] && b.take(k)[0] == b[0]);
        let x = a.drop_first();
        let y = b.drop_first();
        assert forall|i: int| 0 <= i < k - 1 implies #[trigger] x.take(k - 1)[i] == y.take(
            k - 1,
        )[i] by {
            assert(a.take(k)[i + 1] == a[i + 1]);
            assert(b.take(k)[i + 1] == b[i + 1]);
            assert(x[i] == a[i + 1] && y[i] == b[i + 1]);
        }
        assert(x.take(k - 1) =~= y.take(k - 1));
        first_difference_decides(x, y, k - 1);
    }
}

/// White space is told by the number of a character: the five controls from tab
/// to carriage return, the blank, and the blanks and line ends of Unicode
/// beyond ASCII.
pub proof fn white_space_goes_by_number(c: char)
    ensures
        c == ' ' || c == '\t' || c == '\n' || c == '\r' ==> is_space(c),
        '!' <= c <= '~' ==> !is_space(c),
        is_space(c) <==> ({
            let n = c as u32;
            ||| 9 <= n <= 13
            ||| n == 32
            ||| n == 133
            ||| n == 160
            ||| n == 5760
            ||| 8192 <= n <= 8202
            ||| 8232 <= n <= 8233
            ||| n == 8239
            ||| n == 8287
            ||| n == 12288
        }),
{
}

/// Only capital letters of ASCII change in lower case, each to the letter that
/// stands 32 places behind it.
pub proof fn capitals_become_small(s: Seq<char>, i: int)
    requires
        0 <= i < s.len(),
    ensures
        lower(s).len() == s.len(),
        'A' <= s[i] <= 'Z' ==> lower(s)[i] as u32 == s[i] as u32 + 32,
        !('A' <= s[i] <= 'Z') ==> lower(s)[i] == s[i],
{
}

} // verus!
