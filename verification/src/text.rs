//! Text as sequences of characters: whitespace, trimming, splitting and
//! decimal numbers, each with an executable form on `Vec<char>`.

use vstd::prelude::*;

verus! {

/// `String::push` appends one character.
pub assume_specification[ String::push ](s: &mut String, c: char)
    ensures
        final(s)@ == old(s)@.push(c),
;

/// Whether `c` is Unicode white space: the characters with the
/// `White_Space` property.
pub open spec fn is_space(c: char) -> bool {
    let u = c as u32;
    ||| 0x09 <= u <= 0x0D
    ||| u == 0x20
    ||| u == 0x85
    ||| u == 0xA0
    ||| u == 0x1680
    ||| 0x2000 <= u <= 0x200A
    ||| u == 0x2028
    ||| u == 0x2029
    ||| u == 0x202F
    ||| u == 0x205F
    ||| u == 0x3000
}

/// A set of characters that a scan can run over.
#[derive(Clone, Copy, Debug)]
pub enum CharClass {
    /// White space.
    Space,
    /// Anything but white space.
    Word,
    /// Anything but the given character.
    Except(char),
}

impl CharClass {
    /// Whether `c` belongs to the class.
    pub open spec fn holds(self, c: char) -> bool {
        match self {
            CharClass::Space => is_space(c),
            CharClass::Word => !is_space(c),
            CharClass::Except(stop) => c != stop,
        }
    }

    /// Whether `c` belongs to the class.
    pub fn contains(&self, c: char) -> (inside: bool)
        ensures
            inside == self.holds(c),
    {
        match self {
            CharClass::Space => is_whitespace(c),
            CharClass::Word => !is_whitespace(c),
            CharClass::Except(stop) => c != *stop,
        }
    }
}

/// Length of the longest prefix of `s` whose characters are all in `class`.
pub open spec fn run_len(s: Seq<char>, class: CharClass) -> nat
    decreases s.len(),
{
    if s.len() > 0 && class.holds(s[0]) {
        1 + run_len(s.drop_first(), class)
    } else {
        0
    }
}

/// Length of the longest suffix of `s` whose characters are all in `class`.
pub open spec fn back_run_len(s: Seq<char>, class: CharClass) -> nat
    decreases s.len(),
{
    if s.len() > 0 && class.holds(s.last()) {
        1 + back_run_len(s.drop_last(), class)
    } else {
        0
    }
}

/// `s` without its leading and trailing white space.
pub open spec fn trim(s: Seq<char>) -> Seq<char> {
    let rest = s.skip(run_len(s, CharClass::Space) as int);
    rest.take(rest.len() - back_run_len(rest, CharClass::Space))
}

/// The maximal runs of non-space characters of `s`, in order.
pub open spec fn fields(s: Seq<char>) -> Seq<Seq<char>>
    decreases s.len(),
{
    let rest = s.skip(run_len(s, CharClass::Space) as int);
    let n = run_len(rest, CharClass::Word);
    if 0 < n <= rest.len() && rest.len() <= s.len() {
        seq![rest.take(n as int)] + fields(rest.skip(n as int))
    } else {
        Seq::empty()
    }
}

/// The pieces of `s` between occurrences of `sep`: one more than there are
/// occurrences.
pub open spec fn split_on(s: Seq<char>, sep: char) -> Seq<Seq<char>>
    decreases s.len(),
{
    let n = run_len(s, CharClass::Except(sep));
    if 0 <= n < s.len() {
        seq![s.take(n as int)] + split_on(s.skip(n as int + 1), sep)
    } else {
        seq![s]
    }
}

/// How often `c` occurs in `s`.
pub open spec fn count_of(s: Seq<char>, c: char) -> nat
    decreases s.len(),
{
    if s.len() == 0 {
        0
    } else {
        count_of(s.drop_last(), c) + if s.last() == c {
            1nat
        } else {
            0nat
        }
    }
}

/// The character that writes the digit `d`.
pub open spec fn digit_char(d: int) -> char {
    (0x30 + d) as char
}

/// `n` in decimal, without leading zeros.
pub open spec fn decimal(n: nat) -> Seq<char>
    decreases n,
{
    if n < 10 {
        seq![digit_char(n as int)]
    } else {
        decimal(n / 10).push(digit_char((n % 10) as int))
    }
}

/// The views of the strings of `parts`.
pub open spec fn views(parts: Seq<Vec<char>>) -> Seq<Seq<char>> {
    parts.map_values(|part: Vec<char>| part@)
}

/// A run is bounded by the sequence, holds only members of the class, and
/// stops at the end or before a character outside the class.
pub proof fn lemma_run_len_ends(s: Seq<char>, class: CharClass)
    ensures
        run_len(s, class) <= s.len(),
        forall|k: int| 0 <= k < run_len(s, class) ==> class.holds(#[trigger] s[k]),
        run_len(s, class) < s.len() ==> !class.holds(s[run_len(s, class) as int]),
    decreases s.len(),
{
    if s.len() > 0 && class.holds(s[0]) {
        let rest = s.drop_first();
        lemma_run_len_ends(rest, class);
        assert forall|k: int| 0 <= k < run_len(s, class) implies class.holds(#[trigger] s[k]) by {
            if k > 0 {
                assert(s[k] == rest[k - 1]);
            }
        }
        if run_len(s, class) < s.len() {
            assert(s[run_len(s, class) as int] == rest[run_len(rest, class) as int]);
        }
    }
}

/// The place where a run stops determines its length.
pub proof fn lemma_run_len_is(s: Seq<char>, class: CharClass, n: int)
    requires
        0 <= n <= s.len(),
        forall|k: int| 0 <= k < n ==> class.holds(#[trigger] s[k]),
        n < s.len() ==> !class.holds(s[n]),
    ensures
        run_len(s, class) == n,
    decreases n,
{
    if n > 0 {
        let rest = s.drop_first();
        assert forall|k: int| 0 <= k < n - 1 implies class.holds(#[trigger] rest[k]) by {
            assert(rest[k] == s[k + 1]);
        }
        if n - 1 < rest.len() {
            assert(rest[n - 1] == s[n]);
        }
        lemma_run_len_is(rest, class, n - 1);
    }
}

/// The place where a run from the back stops determines its length.
pub proof fn lemma_back_run_len_is(s: Seq<char>, class: CharClass, n: int)
    requires
        0 <= n <= s.len(),
        forall|k: int| s.len() - n <= k < s.len() ==> class.holds(#[trigger] s[k]),
        n < s.len() ==> !class.holds(s[s.len() - n - 1]),
    ensures
        back_run_len(s, class) == n,
    decreases n,
{
    if n > 0 {
        let rest = s.drop_last();
        assert forall|k: int| rest.len() - (n - 1) <= k < rest.len() implies class.holds(
            #[trigger] rest[k],
        ) by {
            assert(rest[k] == s[k]);
        }
        if n - 1 < rest.len() {
            assert(rest[rest.len() - (n - 1) - 1] == s[s.len() - n - 1]);
        }
        lemma_back_run_len_is(rest, class, n - 1);
    }
}

/// Whether `c` is Unicode white space.
pub fn is_whitespace(c: char) -> (space: bool)
    ensures
        space == is_space(c),
{
    let u: u32 = c as u32;
    (0x09 <= u && u <= 0x0D) || u == 0x20 || u == 0x85 || u == 0xA0 || u == 0x1680 || (0x2000 <= u
        && u <= 0x200A) || u == 0x2028 || u == 0x2029 || u == 0x202F || u == 0x205F || u == 0x3000
}

/// The characters of a string, in order.
pub fn chars_of(s: &str) -> (chars: Vec<char>)
    ensures
        chars@ == s@,
{
    let mut chars: Vec<char> = Vec::new();
    for c in it: s.chars()
        invariant
            it.seq() == s@,
            chars@ == s@.take(it.index()),
    {
        chars.push(c);
        assert(s@.take(it.index() + 1) == s@.take(it.index()).push(s@[it.index()]));
    }
    assert(s@.take(s@.len() as int) == s@);
    chars
}

/// Appends the characters `chars[from..to]` to `out`.
pub fn push_range(out: &mut String, chars: &Vec<char>, from: usize, to: usize)
    requires
        from <= to <= chars.len(),
    ensures
        final(out)@ == old(out)@ + chars@.subrange(from as int, to as int),
{
    let mut i: usize = from;
    while i < to
        invariant
            from <= i <= to <= chars.len(),
            out@ == old(out)@ + chars@.subrange(from as int, i as int),
        decreases to - i,
    {
        out.push(chars[i]);
        i += 1;
        assert(chars@.subrange(from as int, i as int) == chars@.subrange(from as int, i - 1).push(
            chars@[i - 1],
        ));
    }
}

/// Appends all of `chars` to `out`.
pub fn push_chars(out: &mut String, chars: &Vec<char>)
    ensures
        final(out)@ == old(out)@ + chars@,
{
    assert(chars@.subrange(0, chars.len() as int) == chars@);
    push_range(out, chars, 0, chars.len());
}

/// The string that holds `chars`.
pub fn string_of(chars: &Vec<char>) -> (s: String)
    ensures
        s@ == chars@,
{
    let mut s = String::new();
    push_chars(&mut s, chars);
    assert(Seq::<char>::empty() + chars@ == chars@);
    s
}

/// A copy of `chars[from..to]`.
pub fn copy_range(chars: &Vec<char>, from: usize, to: usize) -> (part: Vec<char>)
    requires
        from <= to <= chars.len(),
    ensures
        part@ == chars@.subrange(from as int, to as int),
{
    let mut part: Vec<char> = Vec::new();
    let mut i: usize = from;
    while i < to
        invariant
            from <= i <= to <= chars.len(),
            part@ == chars@.subrange(from as int, i as int),
        decreases to - i,
    {
        part.push(chars[i]);
        i += 1;
        assert(chars@.subrange(from as int, i as int) == chars@.subrange(from as int, i - 1).push(
            chars@[i - 1],
        ));
    }
    part
}

/// Where the run of `class` that starts at `from` stops.
pub fn run_end(chars: &Vec<char>, from: usize, class: CharClass) -> (end: usize)
    requires
        from <= chars.len(),
    ensures
        from <= end <= chars.len(),
        end - from == run_len(chars@.skip(from as int), class),
{
    let mut end: usize = from;
    while end < chars.len() && class.contains(chars[end])
        invariant
            from <= end <= chars.len(),
            forall|k: int| from <= k < end ==> class.holds(#[trigger] chars@[k]),
        decreases chars.len() - end,
    {
        end += 1;
    }
    proof {
        let tail = chars@.skip(from as int);
        assert forall|k: int| 0 <= k < end - from implies class.holds(#[trigger] tail[k]) by {
            assert(tail[k] == chars@[from + k]);
        }
        lemma_run_len_is(tail, class, end - from);
    }
    end
}

/// Where the run of `class` that ends at `to`, and starts no earlier than
/// `from`, starts.
pub fn back_run_start(chars: &Vec<char>, from: usize, to: usize, class: CharClass) -> (start:
    usize)
    requires
        from <= to <= chars.len(),
    ensures
        from <= start <= to,
        to - start == back_run_len(chars@.subrange(from as int, to as int), class),
{
    let mut start: usize = to;
    while start > from && class.contains(chars[start - 1])
        invariant
            from <= start <= to <= chars.len(),
            forall|k: int| start <= k < to ==> class.holds(#[trigger] chars@[k]),
        decreases start,
    {
        start -= 1;
    }
    proof {
        let part = chars@.subrange(from as int, to as int);
        assert forall|k: int| part.len() - (to - start) <= k < part.len() implies class.holds(
            #[trigger] part[k],
        ) by {
            assert(part[k] == chars@[from + k]);
        }
        lemma_back_run_len_is(part, class, to - start);
    }
    start
}

/// `chars` without its leading and trailing white space.
pub fn trimmed(chars: &Vec<char>) -> (inner: Vec<char>)
    ensures
        inner@ == trim(chars@),
{
    let from = run_end(chars, 0, CharClass::Space);
    let to = back_run_start(chars, from, chars.len(), CharClass::Space);
    proof {
        assert(chars@.skip(0) == chars@);
        let rest = chars@.skip(from as int);
        assert(rest == chars@.subrange(from as int, chars.len() as int));
        assert(rest.take(rest.len() - (chars.len() - to)) == chars@.subrange(
            from as int,
            to as int,
        ));
    }
    copy_range(chars, from, to)
}

/// The maximal runs of non-space characters of `chars`, in order.
pub fn split_fields(chars: &Vec<char>) -> (parts: Vec<Vec<char>>)
    ensures
        views(parts@) == fields(chars@),
{
    let mut parts: Vec<Vec<char>> = Vec::new();
    let mut at: usize = 0;
    assert(chars@.skip(0) == chars@);
    assert(views(parts@) + fields(chars@) == fields(chars@));
    loop
        invariant_except_break
            at <= chars.len(),
            views(parts@) + fields(chars@.skip(at as int)) == fields(chars@),
        ensures
            views(parts@) == fields(chars@),
        decreases chars.len() - at,
    {
        let ghost tail = chars@.skip(at as int);
        let from = run_end(chars, at, CharClass::Space);
        let to = run_end(chars, from, CharClass::Word);
        proof {
            assert(tail.skip(from - at) == chars@.skip(from as int));
        }
        if to == from {
            assert(views(parts@) + Seq::<Seq<char>>::empty() == views(parts@));
            break;
        }
        let word = copy_range(chars, from, to);
        proof {
            let rest = chars@.skip(from as int);
            assert(rest.take(to - from) == chars@.subrange(from as int, to as int));
            assert(rest.skip(to - from) == chars@.skip(to as int));
            assert(fields(tail) == seq![word@] + fields(chars@.skip(to as int)));
            assert(views(parts@.push(word)) == views(parts@).push(word@));
            assert(views(parts@).push(word@) + fields(chars@.skip(to as int)) == views(parts@) + (
            seq![word@] + fields(chars@.skip(to as int))));
        }
        parts.push(word);
        at = to;
    }
    parts
}

/// The pieces of `chars` between occurrences of `sep`.
pub fn split_at_char(chars: &Vec<char>, sep: char) -> (parts: Vec<Vec<char>>)
    ensures
        views(parts@) == split_on(chars@, sep),
{
    let mut parts: Vec<Vec<char>> = Vec::new();
    let mut at: usize = 0;
    assert(chars@.skip(0) == chars@);
    assert(views(parts@) + split_on(chars@, sep) == split_on(chars@, sep));
    loop
        invariant_except_break
            at <= chars.len(),
            views(parts@) + split_on(chars@.skip(at as int), sep) == split_on(chars@, sep),
        ensures
            views(parts@) == split_on(chars@, sep),
        decreases chars.len() - at,
    {
        let ghost tail = chars@.skip(at as int);
        let to = run_end(chars, at, CharClass::Except(sep));
        let piece = copy_range(chars, at, to);
        let ghost before = views(parts@);
        proof {
            assert(tail.take(to - at) == chars@.subrange(at as int, to as int));
            assert(views(parts@.push(piece)) == before.push(piece@));
            assert(before.push(piece@) == before + seq![piece@]);
        }
        parts.push(piece);
        if to == chars.len() {
            proof {
                assert(tail.take(to - at) == tail);
                assert(split_on(tail, sep) == seq![tail]);
            }
            break;
        }
        proof {
            assert(tail.skip(to - at + 1) == chars@.skip(to + 1));
            assert(split_on(tail, sep) == seq![piece@] + split_on(chars@.skip(to + 1), sep));
            assert((before + seq![piece@]) + split_on(chars@.skip(to + 1), sep) == before + (
            seq![piece@] + split_on(chars@.skip(to + 1), sep)));
        }
        at = to + 1;
    }
    parts
}

/// How often `c` occurs in `chars`.
pub fn count_char(chars: &Vec<char>, c: char) -> (n: usize)
    ensures
        n == count_of(chars@, c),
{
    let mut n: usize = 0;
    let mut i: usize = 0;
    while i < chars.len()
        invariant
            i <= chars.len(),
            n <= i,
            n == count_of(chars@.take(i as int), c),
        decreases chars.len() - i,
    {
        proof {
            assert(chars@.take(i + 1).drop_last() == chars@.take(i as int));
        }
        if chars[i] == c {
            n += 1;
        }
        i += 1;
    }
    assert(chars@.take(chars.len() as int) == chars@);
    n
}

/// Whether `chars` begins with `prefix`.
pub fn starts_with(chars: &Vec<char>, prefix: &Vec<char>) -> (yes: bool)
    ensures
        yes == prefix@.is_prefix_of(chars@),
{
    if prefix.len() > chars.len() {
        return false;
    }
    let mut i: usize = 0;
    while i < prefix.len()
        invariant
            i <= prefix.len() <= chars.len(),
            forall|k: int| 0 <= k < i ==> prefix@[k] == chars@[k],
        decreases prefix.len() - i,
    {
        if prefix[i] != chars[i] {
            return false;
        }
        i += 1;
    }
    assert(prefix@ =~= chars@.subrange(0, prefix@.len() as int));
    true
}

/// Appends `n` in decimal to `out`.
pub fn push_decimal(out: &mut String, n: u64)
    ensures
        final(out)@ == old(out)@ + decimal(n as nat),
    decreases n,
{
    if n >= 10 {
        push_decimal(out, n / 10);
    }
    let d: u8 = (n % 10) as u8;
    let c: char = (0x30u8 + d) as char;
    assert(c == digit_char((n % 10) as int));
    out.push(c);
    proof {
        if n >= 10 {
            assert(old(out)@ + decimal(n as nat) == (old(out)@ + decimal((n / 10) as nat)).push(c));
        } else {
            assert(old(out)@ + decimal(n as nat) == old(out)@.push(c));
        }
    }
}

} // verus!
