//! Sequences of strings as mathematical values, and joining them.
use vstd::prelude::*;
use vstd::std_specs::iter::IteratorSpec;

verus! {

/// The character sequences of a list of strings.
pub open spec fn strs(v: Seq<String>) -> Seq<Seq<char>> {
    v.map_values(|s: String| s@)
}

/// `parts` separated by `sep`, as `[a, b, c].join(sep)` gives it.
pub open spec fn join(parts: Seq<Seq<char>>, sep: Seq<char>) -> Seq<char>
    decreases parts.len(),
{
    if parts.len() == 0 {
        Seq::empty()
    } else if parts.len() == 1 {
        parts[0]
    } else {
        join(parts.drop_last(), sep) + sep + parts.last()
    }
}

/// Joins `parts` with `sep` between each two neighbours.
pub fn join_strings(parts: &Vec<String>, sep: &str) -> (r: String)
    ensures
        r@ == join(strs(parts@), sep@),
{
    let mut out = String::new();
    let mut i: usize = 0;
    while i < parts.len()
        invariant
            i <= parts.len(),
            out@ == join(strs(parts@).take(i as int), sep@),
        decreases parts.len() - i,
    {
        proof {
            let s = strs(parts@);
            assert(s.take(i + 1).drop_last() =~= s.take(i as int));
            assert(s.take(i + 1).last() == parts@[i as int]@);
            if i == 0 {
                assert(out@ =~= Seq::<char>::empty());
            }
        }
        if i > 0 {
            out.append(sep);
        }
        out.append(parts[i].as_str());
        i = i + 1;
        proof {
            let s = strs(parts@);
            if i == 1 {
                assert(out@ =~= s.take(1)[0]);
            }
        }
    }
    proof {
        assert(strs(parts@).take(parts.len() as int) =~= strs(parts@));
    }
    out
}

/// The decimal digits, by value.
pub open spec fn digits() -> Seq<char> {
    seq!['0', '1', '2', '3', '4', '5', '6', '7', '8', '9']
}

/// `n` written in decimal, without sign or leading zeros.
pub open spec fn decimal(n: nat) -> Seq<char>
    decreases n,
{
    if n < 10 {
        seq![digits()[n as int]]
    } else {
        decimal(n / 10).push(digits()[(n % 10) as int])
    }
}

/// Relies on `String::push`: the character is added at the end.
#[verifier::external_body]
pub(crate) fn push_char(s: &mut String, c: char)
    ensures
        final(s)@ == old(s)@.push(c),
{
    s.push(c)
}

fn digit_char(d: u128) -> (c: char)
    requires
        d < 10,
    ensures
        c == digits()[d as int],
{
    match d {
        0 => '0',
        1 => '1',
        2 => '2',
        3 => '3',
        4 => '4',
        5 => '5',
        6 => '6',
        7 => '7',
        8 => '8',
        _ => '9',
    }
}

/// Appends the decimal form of `n` to `out`.
pub fn push_decimal(out: &mut String, n: u128)
    ensures
        final(out)@ == old(out)@ + decimal(n as nat),
    decreases n,
{
    if n >= 10 {
        push_decimal(out, n / 10);
    }
    push_char(out, digit_char(n % 10));
    proof {
        if n < 10 {
            assert(n % 10 == n);
        }
    }
    assert(out@ =~= old(out)@ + decimal(n as nat));
}

/// The decimal form of `n`.
pub fn decimal_string(n: u64) -> (r: String)
    ensures
        r@ == decimal(n as nat),
{
    let mut out = String::new();
    push_decimal(&mut out, n as u128);
    assert(out@ =~= decimal(n as nat));
    out
}

/// The characters of `s`, in order.
pub fn chars_of(s: &str) -> (r: Vec<char>)
    ensures
        r@ == s@,
{
    broadcast use vstd::string::axiom_spec_iter, vstd::string::next_postcondition;

    let mut it = s.chars();
    let mut r: Vec<char> = Vec::new();
    assert(it.remaining() == s@);
    loop
        invariant
            it.obeys_prophetic_iter_laws(),
            it.decrease() is Some,
            r@ + it.remaining() == s@,
        ensures
            r@ == s@,
        decreases it.decrease()->0,
    {
        let ghost before = it.remaining();
        match it.next() {
            Some(c) => {
                r.push(c);
                assert(r@ + it.remaining() =~= s@) by {
                    assert(before =~= seq![c] + it.remaining());
                }
            },
            None => {
                assert(r@ =~= s@);
                break;
            },
        }
    }
    r
}

/// The string made of the characters `v[from..to]`.
pub fn string_of(v: &Vec<char>, from: usize, to: usize) -> (r: String)
    requires
        from <= to <= v.len(),
    ensures
        r@ == v@.subrange(from as int, to as int),
{
    let mut r = String::new();
    let mut k: usize = from;
    while k < to
        invariant
            from <= k <= to <= v.len(),
            r@ =~= v@.subrange(from as int, k as int),
        decreases to - k,
    {
        push_char(&mut r, v[k]);
        k = k + 1;
    }
    r
}

/// Scanning `s` for `sep`: the pieces closed by a separator so far, and
/// the open one after the last separator.
pub open spec fn piece_scan(s: Seq<char>, sep: char) -> (Seq<Seq<char>>, Seq<char>)
    decreases s.len(),
{
    if s.len() == 0 {
        (Seq::empty(), Seq::empty())
    } else {
        let (closed, open) = piece_scan(s.drop_last(), sep);
        if s.last() == sep {
            (closed.push(open), Seq::empty())
        } else {
            (closed, open.push(s.last()))
        }
    }
}

/// The pieces of `s` between separators, as `s.split(sep)` gives them: one
/// more than there are separators.
pub open spec fn split_on(s: Seq<char>, sep: char) -> Seq<Seq<char>> {
    piece_scan(s, sep).0.push(piece_scan(s, sep).1)
}

/// A line without the `'\r'` that ends it, if one does.
pub open spec fn strip_cr(line: Seq<char>) -> Seq<char> {
    if line.len() > 0 && line.last() == '\r' { line.drop_last() } else { line }
}

/// The lines of `s`, as `s.lines()` gives them: newline-terminated pieces
/// without their `"\r\n"` or `"\n"`, then the rest where it is not empty.
pub open spec fn lines(s: Seq<char>) -> Seq<Seq<char>> {
    let closed = piece_scan(s, '\n').0.map_values(|l: Seq<char>| strip_cr(l));
    if piece_scan(s, '\n').1.len() > 0 { closed.push(piece_scan(s, '\n').1) } else { closed }
}

/// The first position at or after `from` where `pat` occurs in `s`.
pub open spec fn find_from(s: Seq<char>, pat: Seq<char>, from: int) -> Option<int>
    decreases s.len() + 1 - from,
{
    if from < 0 || from + pat.len() > s.len() {
        None
    } else if s.subrange(from, from + pat.len()) == pat {
        Some(from)
    } else {
        find_from(s, pat, from + 1)
    }
}

/// The first position at or after `from` where `pat` occurs in `s`.
pub fn find_in(s: &Vec<char>, pat: &Vec<char>, from: usize) -> (r: Option<usize>)
    ensures
        r matches Some(i) ==> find_from(s@, pat@, from as int) == Some(i as int),
        r is None ==> find_from(s@, pat@, from as int) is None,
    decreases s.len() - from,
{
    if from > s.len() || pat.len() > s.len() - from {
        return None;
    }
    let mut k: usize = 0;
    while k < pat.len()
        invariant
            from + pat.len() <= s.len(),
            k <= pat.len(),
            forall|j: int| 0 <= j < k ==> s@[from + j] == pat@[j],
        decreases pat.len() - k,
    {
        if s[from + k] != pat[k] {
            assert(s@.subrange(from as int, from + pat.len())[k as int] != pat@[k as int]);
            return find_in(s, pat, from + 1);
        }
        k = k + 1;
    }
    assert(s@.subrange(from as int, from + pat.len()) =~= pat@);
    Some(from)
}

/// Whether `s` starts with `prefix`.
pub fn starts_with(s: &Vec<char>, prefix: &Vec<char>) -> (r: bool)
    ensures
        r == (prefix.len() <= s.len() && s@.subrange(0, prefix.len() as int) == prefix@),
{
    if prefix.len() > s.len() {
        return false;
    }
    let mut k: usize = 0;
    while k < prefix.len()
        invariant
            prefix.len() <= s.len(),
            k <= prefix.len(),
            forall|j: int| 0 <= j < k ==> s@[j] == prefix@[j],
        decreases prefix.len() - k,
    {
        if s[k] != prefix[k] {
            assert(s@.subrange(0, prefix.len() as int)[k as int] != prefix@[k as int]);
            return false;
        }
        k = k + 1;
    }
    assert(s@.subrange(0, prefix.len() as int) =~= prefix@);
    true
}

/// The separator scan of `s` as character vectors: closed pieces and the open one.
pub fn scan_pieces(s: &Vec<char>, sep: char) -> (r: (Vec<Vec<char>>, Vec<char>))
    ensures
        r.0@.map_values(|l: Vec<char>| l@) == piece_scan(s@, sep).0,
        r.1@ == piece_scan(s@, sep).1,
{
    let mut closed: Vec<Vec<char>> = Vec::new();
    let mut open: Vec<char> = Vec::new();
    let mut k: usize = 0;
    while k < s.len()
        invariant
            k <= s.len(),
            closed@.map_values(|l: Vec<char>| l@) == piece_scan(s@.take(k as int), sep).0,
            open@ == piece_scan(s@.take(k as int), sep).1,
        decreases s.len() - k,
    {
        proof {
            assert(s@.take(k + 1).drop_last() =~= s@.take(k as int));
            assert(s@.take(k + 1).last() == s@[k as int]);
        }
        let c = s[k];
        if c == sep {
            let line = open;
            open = Vec::new();
            let ghost before = closed@.map_values(|l: Vec<char>| l@);
            closed.push(line);
            assert(closed@.map_values(|l: Vec<char>| l@) =~= before.push(line@));
        } else {
            open.push(c);
        }
        k = k + 1;
    }
    assert(s@.take(k as int) =~= s@);
    (closed, open)
}

/// The value of a decimal digit.
pub open spec fn digit_of(c: char) -> Option<nat> {
    if c == '0' { Some(0) }
    else if c == '1' { Some(1) }
    else if c == '2' { Some(2) }
    else if c == '3' { Some(3) }
    else if c == '4' { Some(4) }
    else if c == '5' { Some(5) }
    else if c == '6' { Some(6) }
    else if c == '7' { Some(7) }
    else if c == '8' { Some(8) }
    else if c == '9' { Some(9) }
    else { None }
}

/// The value of a non-empty run of decimal digits; none where `s` is empty
/// or holds another character.
pub open spec fn digits_value(s: Seq<char>) -> Option<nat>
    decreases s.len(),
{
    if s.len() == 0 {
        None
    } else if s.len() == 1 {
        digit_of(s[0])
    } else {
        match (digits_value(s.drop_last()), digit_of(s.last())) {
            (Some(v), Some(d)) => Some(v * 10 + d),
            _ => None,
        }
    }
}

/// What `s.parse::<u64>()` accepts: digits after an optional '+', with a
/// value that fits in 64 bits.
pub open spec fn parsed_u64(s: Seq<char>) -> Option<nat> {
    let body = if s.len() > 1 && s[0] == '+' { s.drop_first() } else { s };
    match digits_value(body) {
        Some(v) => if v <= u64::MAX { Some(v) } else { None },
        None => None,
    }
}

fn digit_value(c: char) -> (r: Option<u64>)
    ensures
        r matches Some(d) ==> digit_of(c) == Some(d as nat) && d < 10,
        r is None ==> digit_of(c) is None,
{
    match c {
        '0' => Some(0),
        '1' => Some(1),
        '2' => Some(2),
        '3' => Some(3),
        '4' => Some(4),
        '5' => Some(5),
        '6' => Some(6),
        '7' => Some(7),
        '8' => Some(8),
        '9' => Some(9),
        _ => None,
    }
}

/// Reads an unsigned 64-bit decimal number, as `str::parse::<u64>` does.
pub fn parse_u64(s: &String) -> (r: Option<u64>)
    ensures
        r matches Some(v) ==> parsed_u64(s@) == Some(v as nat),
        r is None ==> parsed_u64(s@) is None,
{
    let chars = chars_of(s.as_str());
    let start: usize = if chars.len() > 1 && chars[0] == '+' { 1 } else { 0 };
    let ghost body = if s@.len() > 1 && s@[0] == '+' { s@.drop_first() } else { s@ };
    assert(body =~= chars@.subrange(start as int, chars.len() as int));
    if start >= chars.len() {
        assert(body.len() == 0);
        return None;
    }
    let mut value: u64 = 0;
    let mut too_big = false;
    let mut k: usize = start;
    while k < chars.len()
        invariant
            start < chars.len(),
            start <= k <= chars.len(),
            body == (if s@.len() > 1 && s@[0] == '+' { s@.drop_first() } else { s@ }),
            body =~= chars@.subrange(start as int, chars.len() as int),
            k > start ==> digits_value(body.take(k - start)) is Some,
            k > start && !too_big ==> digits_value(body.take(k - start)) == Some(value as nat),
            k > start && too_big ==> digits_value(body.take(k - start))->Some_0 > u64::MAX,
            k == start ==> !too_big && value == 0,
        decreases chars.len() - k,
    {
        let ghost prefix = body.take(k + 1 - start);
        proof {
            assert(prefix.drop_last() =~= body.take(k - start));
            assert(prefix.last() == chars@[k as int]);
            if k == start {
                assert(prefix.len() == 1);
            }
        }
        match digit_value(chars[k]) {
            None => {
                proof {
                    assert(digits_value(prefix) is None);
                    lemma_digits_value_prefix(body, k + 1 - start);
                }
                return None;
            },
            Some(d) => {
                if !too_big {
                    if value > (u64::MAX - d) / 10 {
                        too_big = true;
                    } else {
                        value = value * 10 + d;
                    }
                }
            },
        }
        k = k + 1;
    }
    assert(body.take(k - start) =~= body);
    if too_big { None } else { Some(value) }
}

/// Where a prefix of `s` is not a run of digits, neither is `s`.
pub proof fn lemma_digits_value_prefix(s: Seq<char>, n: int)
    requires
        0 < n <= s.len(),
        digits_value(s.take(n)) is None,
    ensures
        digits_value(s) is None,
    decreases s.len() - n,
{
    if n < s.len() {
        let t = s.take(n + 1);
        assert(t.drop_last() =~= s.take(n));
        lemma_digits_value_prefix(s, n + 1);
    } else {
        assert(s.take(n) =~= s);
    }
}

/// Reading back the decimal form of `n` gives `n`.
pub proof fn lemma_decimal_round_trip(n: nat)
    requires
        n <= u64::MAX,
    ensures
        parsed_u64(decimal(n)) == Some(n),
{
    lemma_decimal_digits(n);
}

proof fn lemma_decimal_digits(n: nat)
    ensures
        digits_value(decimal(n)) == Some(n),
        decimal(n).len() >= 1,
        digit_of(decimal(n)[0]) is Some,
    decreases n,
{
    if n >= 10 {
        lemma_decimal_digits(n / 10);
        let s = decimal(n);
        assert(s.drop_last() =~= decimal(n / 10));
        assert(s[0] == decimal(n / 10)[0]);
    }
}

/// `s` holds no newline.
pub open spec fn single_line(s: Seq<char>) -> bool {
    !s.contains('\n')
}

/// Scanning text without a newline extends the open piece.
pub proof fn lemma_scan_append_line(a: Seq<char>, b: Seq<char>)
    requires
        single_line(b),
    ensures
        piece_scan(a + b, '\n') == (piece_scan(a, '\n').0, piece_scan(a, '\n').1 + b),
    decreases b.len(),
{
    if b.len() == 0 {
        assert(a + b =~= a);
        assert(piece_scan(a, '\n').1 + b =~= piece_scan(a, '\n').1);
    } else {
        let c = b.last();
        assert(b[b.len() - 1] == c);
        assert(single_line(b.drop_last())) by {
            if b.drop_last().contains('\n') {
                let k = choose|k: int| 0 <= k < b.drop_last().len() && b.drop_last()[k] == '\n';
                assert(b[k] == '\n');
            }
        }
        lemma_scan_append_line(a, b.drop_last());
        assert((a + b).drop_last() =~= a + b.drop_last());
        assert((a + b).last() == c);
        assert(piece_scan(a, '\n').1 + b =~= (piece_scan(a, '\n').1 + b.drop_last()).push(c));
    }
}

/// The pieces of the scan of text are single lines.
pub proof fn lemma_scan_single_lines(s: Seq<char>)
    ensures
        forall|k: int| 0 <= k < piece_scan(s, '\n').0.len() ==> single_line(#[trigger] piece_scan(s, '\n').0[k]),
        single_line(piece_scan(s, '\n').1),
    decreases s.len(),
{
    if s.len() > 0 {
        lemma_scan_single_lines(s.drop_last());
        let (closed, open) = piece_scan(s.drop_last(), '\n');
        if s.last() != '\n' {
            assert forall|k: int| 0 <= k < open.push(s.last()).len() implies open.push(s.last())[k] != '\n' by {
                if k < open.len() {
                    assert(!open.contains('\n'));
                    assert(open.push(s.last())[k] == open[k]);
                }
            }
        } else {
            assert(Seq::<char>::empty() =~= Seq::<char>::empty());
        }
    }
}

/// Splitting at newlines undoes joining single lines with newlines.
pub proof fn lemma_split_join_newlines(parts: Seq<Seq<char>>)
    requires
        parts.len() > 0,
        forall|k: int| 0 <= k < parts.len() ==> single_line(#[trigger] parts[k]),
    ensures
        split_on(join(parts, "\n"@), '\n') == parts,
    decreases parts.len(),
{
    reveal_strlit("\n");
    let nl = "\n"@;
    assert(nl =~= seq!['\n']);
    if parts.len() == 1 {
        lemma_scan_append_line(Seq::empty(), parts[0]);
        assert(Seq::<char>::empty() + parts[0] =~= parts[0]);
        assert(Seq::<char>::empty() + parts[0] =~= parts[0]);
        assert(split_on(join(parts, nl), '\n') =~= parts);
    } else {
        let init = parts.drop_last();
        assert forall|k: int| 0 <= k < init.len() implies single_line(#[trigger] init[k]) by {
            assert(init[k] == parts[k]);
        }
        lemma_split_join_newlines(init);
        let j = join(init, nl);
        assert((j + nl).drop_last() =~= j);
        assert((j + nl).last() == '\n');
        let x = parts.last();
        assert(single_line(parts[parts.len() - 1]));
        lemma_scan_append_line(j + nl, x);
        assert(piece_scan(j + nl, '\n').1 =~= Seq::<char>::empty());
        assert(Seq::<char>::empty() + x =~= x);
        assert(split_on(join(parts, nl), '\n') =~= parts);
    }
}

/// Whether `a` holds exactly the characters of `b`.
pub fn equals_str(a: &String, b: &str) -> (r: bool)
    ensures
        r == (a@ == b@),
{
    *a == String::from_str(b)
}

/// Splits `s` at each `sep`, as `str::split` does.
pub fn split_string(s: &String, sep: char) -> (r: Vec<String>)
    ensures
        strs(r@) == split_on(s@, sep),
{
    let chars = chars_of(s.as_str());
    let (closed, open) = scan_pieces(&chars, sep);
    let ghost cv = piece_scan(s@, sep).0;
    let mut r: Vec<String> = Vec::new();
    let mut k: usize = 0;
    while k < closed.len()
        invariant
            k <= closed.len(),
            r.len() == k,
            closed@.map_values(|l: Vec<char>| l@) == cv,
            cv == piece_scan(s@, sep).0,
            strs(r@) =~= cv.take(k as int),
        decreases closed.len() - k,
    {
        let line = string_of(&closed[k], 0, closed[k].len());
        assert(line@ =~= cv[k as int]);
        r.push(line);
        assert(strs(r@)[k as int] == cv[k as int]);
        k = k + 1;
    }
    let last = string_of(&open, 0, open.len());
    let ghost before = strs(r@);
    r.push(last);
    assert(cv.take(k as int) =~= cv);
    assert(strs(r@) =~= before.push(last@));
    assert(last@ =~= piece_scan(s@, sep).1);
    r
}

/// A copy of each string of `v`.
pub fn clone_strings(v: &Vec<String>) -> (r: Vec<String>)
    ensures
        strs(r@) == strs(v@),
{
    let mut r: Vec<String> = Vec::new();
    let mut k: usize = 0;
    while k < v.len()
        invariant
            k <= v.len(),
            r.len() == k,
            strs(r@) =~= strs(v@).take(k as int),
        decreases v.len() - k,
    {
        let s = v[k].clone();
        r.push(s);
        proof {
            assert(strs(r@)[k as int] == strs(v@)[k as int]);
        }
        k = k + 1;
    }
    assert(strs(v@).take(k as int) =~= strs(v@));
    r
}

/// Whether `v` holds a string equal to `s` among its first `upto` entries.
pub fn contains_string(v: &Vec<String>, upto: usize, s: &String) -> (r: bool)
    requires
        upto <= v.len(),
    ensures
        r == strs(v@).take(upto as int).contains(s@),
{
    let mut i: usize = 0;
    while i < upto
        invariant
            i <= upto <= v.len(),
            forall|k: int| 0 <= k < i ==> v@[k]@ != s@,
        decreases upto - i,
    {
        if v[i] == *s {
            proof {
                assert(strs(v@).take(upto as int)[i as int] == s@);
            }
            return true;
        }
        i = i + 1;
    }
    proof {
        if strs(v@).take(upto as int).contains(s@) {
            let k = choose|k: int| 0 <= k < upto && strs(v@).take(upto as int)[k] == s@;
            assert(v@[k]@ == s@);
        }
    }
    false
}

} // verus!
