//! Scanning of text: characters, runs, lines and fields.
//!
//! The functions here cut a `&str` into lines, fields and words. Each result is
//! stated over the sequence of characters of the input, and every piece that is
//! handed out is a slice of the input.

use vstd::prelude::*;

verus! {

/// White space: the characters with the Unicode property `White_Space`.
pub open spec fn is_whitespace(c: char) -> bool {
    let u = c as u32;
    ||| 0x09 <= u <= 0x0D
    ||| u == 0x20
    ||| u == 0x85
    ||| u == 0xA0
    ||| u == 0x1680
    ||| 0x2000 <= u <= 0x200A
    ||| u == 0x2028
    ||| u == 0x2029
    ||| u == 0x202F
    ||| u == 0x205F
    ||| u == 0x3000
}

/// Whether `c` is white space.
pub fn whitespace(c: char) -> (b: bool)
    ensures
        b == is_whitespace(c),
{
    let u: u32 = c as u32;
    (0x09 <= u && u <= 0x0D) || u == 0x20 || u == 0x85 || u == 0xA0 || u == 0x1680 || (0x2000 <= u
        && u <= 0x200A) || u == 0x2028 || u == 0x2029 || u == 0x202F || u == 0x205F || u == 0x3000
}

/// A set of characters that a scan runs over.
#[derive(Clone, Copy, Debug)]
pub enum CharClass {
    /// Every character but the given one.
    Except(char),
    /// The white-space characters.
    Space,
    /// Every character that is not white space.
    Word,
}

impl CharClass {
    /// Whether `c` belongs to the class.
    pub open spec fn holds(self, c: char) -> bool {
        match self {
            CharClass::Except(stop) => c != stop,
            CharClass::Space => is_whitespace(c),
            CharClass::Word => !is_whitespace(c),
        }
    }

    /// Whether `c` belongs to the class.
    pub fn test(&self, c: char) -> (b: bool)
        ensures
            b == self.holds(c),
    {
        match self {
            CharClass::Except(stop) => c != *stop,
            CharClass::Space => whitespace(c),
            CharClass::Word => !whitespace(c),
        }
    }
}

/// The length of the longest prefix of `s` whose characters all belong to `class`.
pub open spec fn run_len(s: Seq<char>, class: CharClass) -> int
    decreases s.len(),
{
    if s.len() == 0 || !class.holds(s[0]) {
        0
    } else {
        1 + run_len(s.drop_first(), class)
    }
}

/// A run is as long as the sequence, or ends before the first character outside the class.
pub proof fn lemma_run_len_bounds(s: Seq<char>, class: CharClass)
    ensures
        0 <= run_len(s, class) <= s.len(),
        forall|j: int| 0 <= j < run_len(s, class) ==> class.holds(#[trigger] s[j]),
        run_len(s, class) < s.len() ==> !class.holds(s[run_len(s, class)]),
    decreases s.len(),
{
    if s.len() == 0 || !class.holds(s[0]) {
    } else {
        let rest = s.drop_first();
        lemma_run_len_bounds(rest, class);
        assert forall|j: int| 0 <= j < run_len(s, class) implies class.holds(#[trigger] s[j]) by {
            if j > 0 {
                assert(s[j] == rest[j - 1]);
            }
        }
        if run_len(s, class) < s.len() {
            assert(s[run_len(s, class)] == rest[run_len(rest, class)]);
        }
    }
}

/// A prefix of `n` characters of the class that is followed by the end of `s`, or by a
/// character outside the class, is the run.
pub proof fn lemma_run_len_is(s: Seq<char>, class: CharClass, n: int)
    requires
        0 <= n <= s.len(),
        forall|j: int| 0 <= j < n ==> class.holds(#[trigger] s[j]),
        n < s.len() ==> !class.holds(s[n]),
    ensures
        run_len(s, class) == n,
    decreases n,
{
    if n == 0 {
    } else {
        let rest = s.drop_first();
        assert(class.holds(s[0]));
        assert forall|j: int| 0 <= j < n - 1 implies class.holds(#[trigger] rest[j]) by {
            assert(rest[j] == s[j + 1]);
        }
        if n - 1 < rest.len() {
            assert(rest[n - 1] == s[n]);
        }
        lemma_run_len_is(rest, class, n - 1);
    }
}

/// The characters of `s`, in order, as a vector that is indexed in constant time.
pub fn chars_of(s: &str) -> (cs: Vec<char>)
    ensures
        cs@ == s@,
{
    let mut cs: Vec<char> = Vec::new();
    let it = s.chars();
    for c in iter: it
        invariant
            iter.seq() == s@,
            cs@ =~= s@.take(iter.index() as int),
    {
        cs.push(c);
    }
    assert(cs@ =~= s@);
    cs
}

/// Where the run of `class` that starts at `from` ends.
pub fn scan(cs: &Vec<char>, from: usize, class: CharClass) -> (to: usize)
    requires
        from <= cs.len(),
    ensures
        from <= to <= cs.len(),
        to == from + run_len(cs@.skip(from as int), class),
{
    let mut to: usize = from;
    while to < cs.len() && class.test(cs[to])
        invariant
            from <= to <= cs.len(),
            forall|j: int| from <= j < to ==> class.holds(#[trigger] cs@[j]),
        decreases cs.len() - to,
    {
        to += 1;
    }
    proof {
        let rest = cs@.skip(from as int);
        assert forall|j: int| 0 <= j < to - from implies class.holds(#[trigger] rest[j]) by {
            assert(rest[j] == cs@[from + j]);
        }
        lemma_run_len_is(rest, class, to - from);
    }
    to
}

/// The views of a list of string slices.
pub open spec fn views(v: Seq<&str>) -> Seq<Seq<char>> {
    Seq::new(v.len(), |i: int| v[i]@)
}

/// `line` without a carriage return at its end.
pub open spec fn strip_cr(line: Seq<char>) -> Seq<char> {
    if line.len() > 0 && line.last() == '\r' {
        line.drop_last()
    } else {
        line
    }
}

/// The lines of `s`. A line ends with a line feed, or with a carriage return and a line
/// feed, and neither belongs to the line. The last line may lack its ending; a carriage
/// return at its end then stays.
pub open spec fn lines_of(s: Seq<char>) -> Seq<Seq<char>>
    decreases s.len(),
{
    if s.len() == 0 {
        Seq::empty()
    } else {
        let n = run_len(s, CharClass::Except('\n'));
        if 0 <= n < s.len() {
            seq![strip_cr(s.take(n))] + lines_of(s.skip(n + 1))
        } else {
            seq![s]
        }
    }
}

/// The fields of `s` between one separator and the next. There is one field more than
/// there are separators in `s`, and a field may be empty.
pub open spec fn fields_of(s: Seq<char>, sep: char) -> Seq<Seq<char>>
    decreases s.len(),
{
    let n = run_len(s, CharClass::Except(sep));
    if 0 <= n < s.len() {
        seq![s.take(n)] + fields_of(s.skip(n + 1), sep)
    } else {
        seq![s]
    }
}

/// The words of `s`: its longest stretches without white space, in order. None is empty.
pub open spec fn words_of(s: Seq<char>) -> Seq<Seq<char>>
    decreases s.len(),
{
    let a = run_len(s, CharClass::Space);
    if 0 <= a < s.len() {
        let b = run_len(s.skip(a), CharClass::Word);
        if 0 < b <= s.len() - a {
            seq![s.subrange(a, a + b)] + words_of(s.skip(a + b))
        } else {
            Seq::empty()
        }
    } else {
        Seq::empty()
    }
}

/// The lines of `text`, each a slice of it.
pub fn lines<'a>(text: &'a str) -> (out: Vec<&'a str>)
    ensures
        views(out@) == lines_of(text@),
{
    let cs = chars_of(text);
    let len = cs.len();
    let mut out: Vec<&'a str> = Vec::new();
    let mut start: usize = 0;
    proof {
        assert(text@.skip(0) =~= text@);
        assert(views(out@) + lines_of(text@) =~= lines_of(text@));
    }
    while start < len
        invariant
            cs@ == text@,
            len == cs.len(),
            start <= len,
            lines_of(text@) == views(out@) + lines_of(text@.skip(start as int)),
        decreases len - start,
    {
        let end = scan(&cs, start, CharClass::Except('\n'));
        let ghost rest = text@.skip(start as int);
        let ghost before = views(out@);
        if end < len {
            let stop = if end > start && cs[end - 1] == '\r' {
                end - 1
            } else {
                end
            };
            let line = text.substring_char(start, stop);
            out.push(line);
            proof {
                assert(rest.take(end - start) =~= text@.subrange(start as int, end as int));
                assert(line@ =~= strip_cr(rest.take(end - start)));
                assert(rest.skip(end - start + 1) =~= text@.skip(end + 1));
                assert(views(out@) =~= before + seq![line@]);
            }
            start = end + 1;
        } else {
            let line = text.substring_char(start, len);
            out.push(line);
            proof {
                assert(line@ =~= rest);
                assert(text@.skip(len as int) =~= Seq::<char>::empty());
                assert(views(out@) =~= before + seq![line@]);
            }
            start = len;
        }
    }
    proof {
        assert(text@.skip(len as int) =~= Seq::<char>::empty());
    }
    out
}

/// The fields of `text` between the separators `sep`, each a slice of it.
pub fn split<'a>(text: &'a str, sep: char) -> (out: Vec<&'a str>)
    ensures
        views(out@) == fields_of(text@, sep),
{
    let cs = chars_of(text);
    let len = cs.len();
    let mut out: Vec<&'a str> = Vec::new();
    let mut start: usize = 0;
    proof {
        assert(text@.skip(0) =~= text@);
        assert(views(out@) + fields_of(text@, sep) =~= fields_of(text@, sep));
    }
    loop
        invariant
            cs@ == text@,
            len == cs.len(),
            start <= len,
            fields_of(text@, sep) == views(out@) + fields_of(text@.skip(start as int), sep),
        decreases len - start,
    {
        let end = scan(&cs, start, CharClass::Except(sep));
        let ghost rest = text@.skip(start as int);
        let ghost before = views(out@);
        let field = text.substring_char(start, end);
        out.push(field);
        proof {
            assert(rest.take(end - start) =~= text@.subrange(start as int, end as int));
            assert(views(out@) =~= before + seq![field@]);
        }
        if end < len {
            proof {
                assert(rest.skip(end - start + 1) =~= text@.skip(end + 1));
            }
            start = end + 1;
        } else {
            proof {
                assert(field@ =~= rest);
            }
            return out;
        }
    }
}

/// The words of `text`, each a slice of it.
pub fn split_whitespace<'a>(text: &'a str) -> (out: Vec<&'a str>)
    ensures
        views(out@) == words_of(text@),
{
    let cs = chars_of(text);
    let len = cs.len();
    let mut out: Vec<&'a str> = Vec::new();
    let mut pos: usize = 0;
    proof {
        assert(text@.skip(0) =~= text@);
        assert(views(out@) + words_of(text@) =~= words_of(text@));
    }
    loop
        invariant
            cs@ == text@,
            len == cs.len(),
            pos <= len,
            words_of(text@) == views(out@) + words_of(text@.skip(pos as int)),
        decreases len - pos,
    {
        let ghost rest = text@.skip(pos as int);
        let ghost before = views(out@);
        let start = scan(&cs, pos, CharClass::Space);
        if start >= len {
            return out;
        }
        let end = scan(&cs, start, CharClass::Word);
        proof {
            assert(rest.skip(start - pos) =~= text@.skip(start as int));
            lemma_run_len_bounds(rest, CharClass::Space);
            assert(rest[start - pos] == cs@[start as int]);
            assert(text@.skip(start as int)[0] == cs@[start as int]);
            lemma_run_len_bounds(text@.skip(start as int).drop_first(), CharClass::Word);
            assert(end > start);
        }
        let word = text.substring_char(start, end);
        out.push(word);
        proof {
            assert(rest.subrange(start - pos, end - pos) =~= word@);
            assert(rest.skip(end - pos) =~= text@.skip(end as int));
            assert(views(out@) =~= before + seq![word@]);
        }
        pos = end;
    }
}

/// Whether `needle` stands in `hay` at offset `i`.
pub open spec fn occurs_at(hay: Seq<char>, needle: Seq<char>, i: int) -> bool {
    &&& 0 <= i
    &&& i + needle.len() <= hay.len()
    &&& hay.subrange(i, i + needle.len()) == needle
}

/// Whether `needle` stands somewhere in `hay`. The empty sequence stands in every one.
pub open spec fn occurs_in(hay: Seq<char>, needle: Seq<char>) -> bool {
    exists|i: int| occurs_at(hay, needle, i)
}

/// Whether `needle` stands in `hay` at offset `at`.
fn matches_at(hay: &Vec<char>, needle: &Vec<char>, at: usize) -> (b: bool)
    requires
        at + needle.len() <= hay.len(),
    ensures
        b == occurs_at(hay@, needle@, at as int),
{
    let mut j: usize = 0;
    while j < needle.len()
        invariant
            j <= needle.len(),
            at + needle.len() <= hay.len(),
            forall|k: int| 0 <= k < j ==> hay@[at + k] == needle@[k],
        decreases needle.len() - j,
    {
        if hay[at + j] != needle[j] {
            proof {
                let window = hay@.subrange(at as int, at + needle.len());
                assert(window[j as int] == hay@[at + j]);
            }
            return false;
        }
        j += 1;
    }
    proof {
        assert(hay@.subrange(at as int, at + needle.len()) =~= needle@);
    }
    true
}

/// Whether `needle` stands somewhere in `hay`.
pub fn contains(hay: &str, needle: &str) -> (b: bool)
    ensures
        b == occurs_in(hay@, needle@),
{
    let h = chars_of(hay);
    let n = chars_of(needle);
    if n.len() > h.len() {
        return false;
    }
    let last: usize = h.len() - n.len();
    let mut i: usize = 0;
    loop
        invariant
            h@ == hay@,
            n@ == needle@,
            last == h.len() - n.len(),
            i <= last,
            forall|k: int| 0 <= k < i ==> !occurs_at(hay@, needle@, k),
        decreases last - i,
    {
        if matches_at(&h, &n, i) {
            return true;
        }
        if i == last {
            return false;
        }
        i += 1;
    }
}

/// Whether the two texts are the same.
pub fn same_text(a: &str, b: &str) -> (r: bool)
    ensures
        r == (a@ == b@),
{
    let x = chars_of(a);
    let y = chars_of(b);
    if x.len() != y.len() {
        return false;
    }
    let mut i: usize = 0;
    while i < x.len()
        invariant
            x@ == a@,
            y@ == b@,
            x.len() == y.len(),
            i <= x.len(),
            forall|k: int| 0 <= k < i ==> x@[k] == y@[k],
        decreases x.len() - i,
    {
        if x[i] != y[i] {
            return false;
        }
        i += 1;
    }
    proof {
        assert(a@ =~= b@);
    }
    true
}

/// The lines among `all` in which `needle` stands, in their order.
pub open spec fn lines_with(all: Seq<Seq<char>>, needle: Seq<char>) -> Seq<Seq<char>> {
    all.filter(|line: Seq<char>| occurs_in(line, needle))
}

/// The lines of `text` in which `needle` stands, each a slice of `text`.
pub fn matching_lines<'a>(text: &'a str, needle: &str) -> (out: Vec<&'a str>)
    ensures
        views(out@) == lines_with(lines_of(text@), needle@),
{
    let all = lines(text);
    let mut out: Vec<&'a str> = Vec::new();
    let ghost keep = |line: Seq<char>| occurs_in(line, needle@);
    let mut i: usize = 0;
    proof {
        reveal(Seq::filter);
        assert(views(all@).take(0).filter(keep) =~= Seq::<Seq<char>>::empty());
    }
    while i < all.len()
        invariant
            i <= all.len(),
            keep == |line: Seq<char>| occurs_in(line, needle@),
            views(out@) == views(all@).take(i as int).filter(keep),
        decreases all.len() - i,
    {
        let line: &'a str = all[i];
        let ghost before = views(out@);
        let ghost seen = views(all@).take(i as int);
        proof {
            reveal(Seq::filter);
            let next = views(all@).take(i + 1);
            assert(next.drop_last() =~= seen);
            assert(next.last() == line@);
        }
        if contains(line, needle) {
            out.push(line);
            proof {
                assert(views(out@) =~= before.push(line@));
            }
        }
        i += 1;
    }
    proof {
        assert(views(all@).take(all.len() as int) =~= views(all@));
    }
    out
}

/// The words of the first line of `text` in which `needle` stands, if there is such a line.
pub open spec fn words_of_line_with(text: Seq<char>, needle: Seq<char>) -> Option<Seq<Seq<char>>> {
    let found = lines_with(lines_of(text), needle);
    if found.len() > 0 {
        Some(words_of(found[0]))
    } else {
        None
    }
}

/// The words of the first line of `file` in which `pattern` stands, each a slice of
/// `file`; `None` where it stands in no line.
pub fn get_line_from_file<'a>(file: &'a str, pattern: &str) -> (r: Option<Vec<&'a str>>)
    ensures
        match r {
            Some(words) => words_of_line_with(file@, pattern@) == Some(views(words@)),
            None => words_of_line_with(file@, pattern@) is None,
        },
{
    let found = matching_lines(file, pattern);
    if found.len() == 0 {
        return None;
    }
    proof {
        assert(views(found@)[0] == found@[0]@);
    }
    Some(split_whitespace(found[0]))
}

} // verus!
