use vstd::prelude::*;

verus! {

/// Appends one character to a string.
///
/// Trusted: wraps `String::push`, which the standard library documents as
/// appending the given `char` to the end of the `String`.
#[verifier::external_body]
pub(crate) fn push_char(s: &mut String, c: char)
    ensures
        final(s)@ == old(s)@.push(c),
{
    s.push(c)
}

/// The characters of a string slice, in order.
pub fn chars_of(s: &str) -> (out: Vec<char>)
    ensures
        out@ == s@,
{
    broadcast use vstd::string::group_string_axioms;
    let mut out: Vec<char> = Vec::new();
    for c in it: s.chars()
        invariant
            it.seq() == s@,
            out@ == it.seq().take(it.index()),
    {
        out.push(c);
    }
    out
}

} // verus!

verus! {

/// The ASCII digit character for a value below ten.
pub open spec fn digit_char(d: nat) -> char {
    (d + 48) as char
}

/// Decimal notation of a natural number, most significant digit first,
/// without leading zeros (zero itself is written `0`).
pub open spec fn decimal(n: nat) -> Seq<char>
    decreases n,
{
    if n < 10 {
        seq![digit_char(n)]
    } else {
        decimal(n / 10).push(digit_char(n % 10))
    }
}

/// Decimal notation of an integer: a leading `-` for negative values.
pub open spec fn signed_decimal(i: int) -> Seq<char> {
    if i < 0 {
        seq!['-'] + decimal((-i) as nat)
    } else {
        decimal(i as nat)
    }
}

pub(crate) fn digit(d: u64) -> (c: char)
    requires
        d < 10,
    ensures
        c == digit_char(d as nat),
{
    match d {
        0 => '0',
        1 => '1',
        2 => '2',
        3 => '3',
        4 => '4',
        5 => '5',
        6 => '6',
        7 => '7',
        8 => '8',
        _ => '9',
    }
}

/// Appends the decimal notation of `n`.
pub fn push_decimal(s: &mut String, n: u64)
    ensures
        final(s)@ == old(s)@ + decimal(n as nat),
    decreases n,
{
    if n >= 10 {
        push_decimal(s, n / 10);
    }
    push_char(s, digit(n % 10));
    assert(decimal(n as nat) == if n < 10 {
        seq![digit_char(n as nat)]
    } else {
        decimal((n / 10) as nat).push(digit_char((n % 10) as nat))
    });
}

/// The decimal notation of `n` as a new string.
pub fn decimal_string(n: u64) -> (out: String)
    ensures
        out@ == decimal(n as nat),
{
    let mut out = String::new();
    push_decimal(&mut out, n);
    assert(out@ =~= decimal(n as nat));
    out
}

/// Appends the decimal notation of a signed integer.
pub fn push_signed_decimal(s: &mut String, i: i64)
    ensures
        final(s)@ == old(s)@ + signed_decimal(i as int),
{
    if i < 0 {
        push_char(s, '-');
        let magnitude: u64 = if i == i64::MIN {
            9223372036854775808u64
        } else {
            (-i) as u64
        };
        push_decimal(s, magnitude);
        assert(final(s)@ =~= old(s)@ + signed_decimal(i as int));
    } else {
        push_decimal(s, i as u64);
    }
}

/// What one character becomes in HTML text: `&`, `<` and `>` turn into
/// their entities, every other character stays as it is.
pub open spec fn escape_html_char(c: char) -> Seq<char> {
    if c == '&' {
        seq!['&', 'a', 'm', 'p', ';']
    } else if c == '<' {
        seq!['&', 'l', 't', ';']
    } else if c == '>' {
        seq!['&', 'g', 't', ';']
    } else {
        seq![c]
    }
}

/// A whole text with each character escaped in turn.
pub open spec fn escaped_html(s: Seq<char>) -> Seq<char>
    decreases s.len(),
{
    if s.len() == 0 {
        Seq::empty()
    } else {
        escaped_html(s.drop_last()) + escape_html_char(s.last())
    }
}

proof fn lemma_escaped_step(s: Seq<char>, i: int)
    requires
        0 <= i < s.len(),
    ensures
        escaped_html(s.take(i + 1)) == escaped_html(s.take(i)) + escape_html_char(s[i]),
{
    assert(s.take(i + 1).drop_last() =~= s.take(i));
}

/// Every character of an escaped text is neither `<` nor `>`.
pub proof fn lemma_escaped_has_no_angle_brackets(s: Seq<char>)
    ensures
        forall|k: int|
            0 <= k < escaped_html(s).len() ==> escaped_html(s)[k] != '<' && escaped_html(s)[k]
                != '>',
    decreases s.len(),
{
    if s.len() > 0 {
        lemma_escaped_has_no_angle_brackets(s.drop_last());
        let prefix = escaped_html(s.drop_last());
        let tail = escape_html_char(s.last());
        assert forall|k: int| 0 <= k < escaped_html(s).len() implies escaped_html(s)[k] != '<'
            && escaped_html(s)[k] != '>' by {
            if k < prefix.len() {
                assert(escaped_html(s)[k] == prefix[k]);
            } else {
                assert(escaped_html(s)[k] == tail[k - prefix.len()]);
            }
        }
    }
}

fn push_escaped_char(out: &mut String, c: char)
    ensures
        final(out)@ == old(out)@ + escape_html_char(c),
{
    if c == '&' {
        push_char(out, '&');
        push_char(out, 'a');
        push_char(out, 'm');
        push_char(out, 'p');
        push_char(out, ';');
    } else if c == '<' {
        push_char(out, '&');
        push_char(out, 'l');
        push_char(out, 't');
        push_char(out, ';');
    } else if c == '>' {
        push_char(out, '&');
        push_char(out, 'g');
        push_char(out, 't');
        push_char(out, ';');
    } else {
        push_char(out, c);
    }
    assert(final(out)@ =~= old(out)@ + escape_html_char(c));
}

/// Escapes `&`, `<` and `>` for Telegram's HTML text mode.
pub fn escape_html(value: &str) -> (out: String)
    ensures
        out@ == escaped_html(value@),
        forall|k: int| 0 <= k < out@.len() ==> out@[k] != '<' && out@[k] != '>',
{
    let chars = chars_of(value);
    let mut out = String::new();
    let mut i: usize = 0;
    while i < chars.len()
        invariant
            chars@ == value@,
            i <= chars.len(),
            out@ == escaped_html(chars@.take(i as int)),
        decreases chars.len() - i,
    {
        proof {
            lemma_escaped_step(chars@, i as int);
        }
        push_escaped_char(&mut out, chars[i]);
        i += 1;
    }
    assert(chars@.take(chars.len() as int) =~= chars@);
    proof {
        lemma_escaped_has_no_angle_brackets(value@);
    }
    out
}

} // verus!

verus! {

/// Unicode white space, as `char::is_whitespace` classifies it.
pub open spec fn is_space(c: char) -> bool {
    let u = c as u32;
    ||| 9 <= u <= 13
    ||| u == 32
    ||| u == 0x85
    ||| u == 0xA0
    ||| u == 0x1680
    ||| 0x2000 <= u <= 0x200A
    ||| u == 0x2028
    ||| u == 0x2029
    ||| u == 0x202F
    ||| u == 0x205F
    ||| u == 0x3000
}

/// Whether a character is white space.
pub fn is_space_exec(c: char) -> (b: bool)
    ensures
        b == is_space(c),
{
    let u = c as u32;
    (9 <= u && u <= 13) || u == 32 || u == 0x85 || u == 0xA0 || u == 0x1680 || (0x2000 <= u && u
        <= 0x200A) || u == 0x2028 || u == 0x2029 || u == 0x202F || u == 0x205F || u == 0x3000
}

/// The words of a text: its maximal runs of characters that are not white
/// space, in order.
pub open spec fn words(s: Seq<char>) -> Seq<Seq<char>>
    decreases s.len(),
{
    if s.len() == 0 {
        Seq::empty()
    } else {
        let w = words(s.drop_last());
        let c = s.last();
        if is_space(c) {
            w
        } else if s.len() >= 2 && !is_space(s[s.len() - 2]) {
            w.drop_last().push(w.last().push(c))
        } else {
            w.push(seq![c])
        }
    }
}

/// The views of a vector of character vectors.
pub open spec fn char_vecs_view(v: Seq<Vec<char>>) -> Seq<Seq<char>> {
    v.map_values(|t: Vec<char>| t@)
}

proof fn lemma_words_nonempty(s: Seq<char>)
    requires
        s.len() > 0,
        !is_space(s.last()),
    ensures
        words(s).len() > 0,
        words(s).last().len() > 0,
    decreases s.len(),
{
    if s.len() >= 2 && !is_space(s[s.len() - 2]) {
        assert(s.drop_last().last() == s[s.len() - 2]);
        lemma_words_nonempty(s.drop_last());
    }
}

/// Splits a text at white space, like `str::split_whitespace`.
pub fn split_words(text: &str) -> (out: Vec<Vec<char>>)
    ensures
        char_vecs_view(out@) == words(text@),
{
    let chars = chars_of(text);
    let mut done: Vec<Vec<char>> = Vec::new();
    let mut cur: Vec<char> = Vec::new();
    let mut i: usize = 0;
    while i < chars.len()
        invariant
            chars@ == text@,
            i <= chars@.len(),
            cur@.len() > 0 <==> (i > 0 && !is_space(chars@[i - 1])),
            words(chars@.take(i as int)) == if cur@.len() > 0 {
                char_vecs_view(done@).push(cur@)
            } else {
                char_vecs_view(done@)
            },
        decreases chars@.len() - i,
    {
        let c = chars[i];
        let ghost prefix = chars@.take(i + 1);
        proof {
            assert(prefix.drop_last() =~= chars@.take(i as int));
            if i > 0 {
                assert(prefix[prefix.len() - 2] == chars@[i - 1]);
            }
        }
        if is_space_exec(c) {
            if cur.len() > 0 {
                let ghost before = char_vecs_view(done@);
                let ghost word = cur@;
                let finished = cur;
                done.push(finished);
                cur = Vec::new();
                assert(char_vecs_view(done@) =~= before.push(word));
            }
        } else {
            let ghost w = words(chars@.take(i as int));
            if cur.len() > 0 {
                assert(w.drop_last() =~= char_vecs_view(done@));
            }
            cur.push(c);
            proof {
                if i > 0 && !is_space(chars@[i - 1]) {
                    assert(words(prefix) == w.drop_last().push(w.last().push(c)));
                } else {
                    assert(words(prefix) == w.push(seq![c]));
                    assert(cur@ =~= seq![c]);
                }
            }
        }
        i += 1;
    }
    assert(chars@.take(chars@.len() as int) =~= chars@);
    if cur.len() > 0 {
        let ghost before = char_vecs_view(done@);
        let ghost word = cur@;
        done.push(cur);
        assert(char_vecs_view(done@) =~= before.push(word));
    }
    done
}

/// A string holding the given characters.
pub fn string_of(chars: &Vec<char>) -> (s: String)
    ensures
        s@ == chars@,
{
    let mut s = String::new();
    let mut i: usize = 0;
    while i < chars.len()
        invariant
            i <= chars@.len(),
            s@ == chars@.take(i as int),
        decreases chars@.len() - i,
    {
        push_char(&mut s, chars[i]);
        i += 1;
        assert(s@ =~= chars@.take(i as int));
    }
    assert(chars@.take(chars@.len() as int) =~= chars@);
    s
}

/// Appends characters to a string.
pub fn push_chars(s: &mut String, chars: &Vec<char>)
    ensures
        final(s)@ == old(s)@ + chars@,
{
    let mut i: usize = 0;
    while i < chars.len()
        invariant
            i <= chars@.len(),
            s@ == old(s)@ + chars@.take(i as int),
        decreases chars@.len() - i,
    {
        push_char(s, chars[i]);
        i += 1;
        assert(s@ =~= old(s)@ + chars@.take(i as int));
    }
    assert(chars@.take(chars@.len() as int) =~= chars@);
}

/// Whether the characters of `t` from index `start` on spell `word`.
pub fn chars_equal_from(t: &Vec<char>, start: usize, word: &str) -> (b: bool)
    requires
        start <= t@.len(),
    ensures
        b == (t@.skip(start as int) == word@),
{
    let w = chars_of(word);
    if t.len() - start != w.len() {
        assert(t@.skip(start as int).len() != word@.len());
        return false;
    }
    let mut k: usize = 0;
    while k < w.len()
        invariant
            w@ == word@,
            start + w.len() == t.len(),
            start <= t@.len(),
            k <= w@.len(),
            forall|m: int| 0 <= m < k ==> t@[start + m] == w@[m],
        decreases w@.len() - k,
    {
        if t[start + k] != w[k] {
            assert(t@.skip(start as int)[k as int] != word@[k as int]);
            return false;
        }
        k += 1;
    }
    assert(t@.skip(start as int) =~= word@);
    true
}

} // verus!
