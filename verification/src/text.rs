use vstd::prelude::*;

verus! {

/// The characters with the Unicode `White_Space` property, the ones that `char::is_whitespace`
/// accepts: U+0009 to U+000D, U+0020, U+0085, U+00A0, U+1680, U+2000 to U+200A, U+2028,
/// U+2029, U+202F, U+205F and U+3000.
pub open spec fn white_space(c: char) -> bool {
    ||| '\u{9}' <= c && c <= '\u{d}'
    ||| c == ' '
    ||| c == '\u{85}'
    ||| c == '\u{a0}'
    ||| c == '\u{1680}'
    ||| '\u{2000}' <= c && c <= '\u{200a}'
    ||| c == '\u{2028}'
    ||| c == '\u{2029}'
    ||| c == '\u{202f}'
    ||| c == '\u{205f}'
    ||| c == '\u{3000}'
}

/// Whether `c` is whitespace.
fn is_white_space(c: char) -> (r: bool)
    ensures
        r == white_space(c),
{
    ('\u{9}' <= c && c <= '\u{d}') || c == ' ' || c == '\u{85}' || c == '\u{a0}' || c == '\u{1680}'
        || ('\u{2000}' <= c && c <= '\u{200a}') || c == '\u{2028}' || c == '\u{2029}' || c
        == '\u{202f}' || c == '\u{205f}' || c == '\u{3000}'
}

/// Calls `String::push`, which appends `c` at the end of `s`.
#[verifier::external_body]
pub(crate) fn push_char(s: &mut String, c: char)
    ensures
        final(s)@ == old(s)@.push(c),
{
    s.push(c)
}

/// The words found in the first `n` characters of `s`: the finished words and the word
/// still being read.
pub open spec fn scan_words(s: Seq<char>, n: nat) -> (Seq<Seq<char>>, Seq<char>)
    decreases n,
{
    if n == 0 {
        (Seq::empty(), Seq::empty())
    } else {
        let prev = scan_words(s, (n - 1) as nat);
        let c = s[n - 1];
        if white_space(c) {
            if prev.1.len() > 0 {
                (prev.0.push(prev.1), Seq::empty())
            } else {
                prev
            }
        } else {
            (prev.0, prev.1.push(c))
        }
    }
}

/// The maximal runs of non-whitespace characters of `s`, in order.
pub open spec fn words(s: Seq<char>) -> Seq<Seq<char>> {
    let scan = scan_words(s, s.len());
    if scan.1.len() > 0 {
        scan.0.push(scan.1)
    } else {
        scan.0
    }
}

/// ASCII letters 'A' to 'Z' become 'a' to 'z'; every other character stays.
pub open spec fn lower_char(c: char) -> char {
    if 'A' <= c && c <= 'Z' {
        ((c as int) + 32) as char
    } else {
        c
    }
}

/// `s` with every ASCII upper-case letter made lower-case.
pub open spec fn lower(s: Seq<char>) -> Seq<char> {
    s.map_values(|c: char| lower_char(c))
}

/// The words separated by single spaces, with a space after each.
pub open spec fn spaced(ws: Seq<Seq<char>>) -> Seq<char>
    decreases ws.len(),
{
    if ws.len() == 0 {
        Seq::empty()
    } else {
        ws[0] + seq![' '] + spaced(ws.drop_first())
    }
}

/// Scanning looks only at the characters it has reached.
proof fn lemma_scan_prefix(s: Seq<char>, k: nat, n: nat)
    requires
        k <= n <= s.len(),
    ensures
        scan_words(s, k) == scan_words(s.take(n as int), k),
    decreases k,
{
    if k > 0 {
        lemma_scan_prefix(s, (k - 1) as nat, n);
        assert(s.take(n as int)[k - 1] == s[k - 1]);
    }
}

/// A whitespace character at the end changes no word.
pub proof fn lemma_words_drop_white(s: Seq<char>)
    requires
        s.len() > 0,
        white_space(s.last()),
    ensures
        words(s) == words(s.drop_last()),
{
    let n = s.len();
    lemma_scan_prefix(s, (n - 1) as nat, (n - 1) as nat);
    assert(s.take(n - 1) =~= s.drop_last());
    let dl = s.drop_last();
    assert(scan_words(dl, dl.len()) == scan_words(s, (n - 1) as nat));
}

/// Lower-casing a line and then splitting it gives the lower-cased words.
pub proof fn lemma_words_lower(s: Seq<char>)
    ensures
        words(lower(s)) == words(s).map_values(|w: Seq<char>| lower(w)),
{
    lemma_scan_lower(s, s.len());
    let sc = scan_words(s, s.len());
    if sc.1.len() > 0 {
        assert(sc.0.push(sc.1).map_values(|w: Seq<char>| lower(w)) =~= sc.0.map_values(
            |w: Seq<char>| lower(w),
        ).push(lower(sc.1)));
    }
}

proof fn lemma_scan_lower(s: Seq<char>, k: nat)
    requires
        k <= s.len(),
    ensures
        scan_words(lower(s), k).0 == scan_words(s, k).0.map_values(|w: Seq<char>| lower(w)),
        scan_words(lower(s), k).1 == lower(scan_words(s, k).1),
    decreases k,
{
    if k == 0 {
        assert(Seq::<Seq<char>>::empty().map_values(|w: Seq<char>| lower(w)) =~= Seq::empty());
        assert(lower(Seq::empty()) =~= Seq::<char>::empty());
    } else {
        lemma_scan_lower(s, (k - 1) as nat);
        let prev = scan_words(s, (k - 1) as nat);
        let c = s[k - 1];
        assert(lower(s)[k - 1] == lower_char(c));
        assert(white_space(lower_char(c)) == white_space(c));
        if white_space(c) {
            if prev.1.len() > 0 {
                assert(prev.0.push(prev.1).map_values(|w: Seq<char>| lower(w)) =~= prev.0.map_values(
                    |w: Seq<char>| lower(w),
                ).push(lower(prev.1)));
                assert(lower(Seq::empty()) =~= Seq::<char>::empty());
            }
        } else {
            assert(lower(prev.1.push(c)) =~= lower(prev.1).push(lower_char(c)));
        }
    }
}

/// Lower-casing twice is lower-casing once.
pub proof fn lemma_lower_twice(w: Seq<char>)
    ensures
        lower(lower(w)) == lower(w),
{
    assert(lower(lower(w)) =~= lower(w));
}

/// A non-empty run of non-whitespace characters is one word.
pub proof fn lemma_one_word(w: Seq<char>)
    requires
        w.len() > 0,
        forall|j: int| 0 <= j < w.len() ==> !white_space(#[trigger] w[j]),
    ensures
        words(w) == seq![w],
{
    lemma_scan_plain(w, w.len());
    assert(w.take(w.len() as int) =~= w);
}

proof fn lemma_scan_plain(w: Seq<char>, k: nat)
    requires
        k <= w.len(),
        forall|j: int| 0 <= j < w.len() ==> !white_space(#[trigger] w[j]),
    ensures
        scan_words(w, k) == (Seq::<Seq<char>>::empty(), w.take(k as int)),
    decreases k,
{
    if k > 0 {
        lemma_scan_plain(w, (k - 1) as nat);
        assert(!white_space(w[k - 1]));
        assert(w.take(k - 1).push(w[k - 1]) =~= w.take(k as int));
    } else {
        assert(w.take(0) =~= Seq::<char>::empty());
    }
}

/// Splitting two lines joined by a space gives the words of the first, then those of the
/// second.
pub proof fn lemma_words_concat(a: Seq<char>, b: Seq<char>)
    ensures
        words(a + seq![' '] + b) == words(a) + words(b),
{
    let s = a + seq![' '] + b;
    let m = a.len();
    lemma_scan_prefix(s, m, m);
    assert(s.take(m as int) =~= a);
    assert(s[m as int] == ' ');
    lemma_scan_after(a, b, b.len());
    let sb = scan_words(b, b.len());
    assert(s.len() == m + 1 + b.len());
    if sb.1.len() > 0 {
        assert((words(a) + sb.0).push(sb.1) =~= words(a) + sb.0.push(sb.1));
    }
}

proof fn lemma_scan_after(a: Seq<char>, b: Seq<char>, k: nat)
    requires
        k <= b.len(),
    ensures
        scan_words(a + seq![' '] + b, a.len() + 1 + k) == (
            words(a) + scan_words(b, k).0,
            scan_words(b, k).1,
        ),
    decreases k,
{
    let s = a + seq![' '] + b;
    let m = a.len();
    if k == 0 {
        lemma_scan_prefix(s, m, m);
        assert(s.take(m as int) =~= a);
        assert(s[m as int] == ' ');
        assert(white_space(' '));
        assert(words(a) + Seq::<Seq<char>>::empty() =~= words(a));
    } else {
        lemma_scan_after(a, b, (k - 1) as nat);
        assert(s[m + 1 + k - 1] == b[k - 1]);
        let prev = scan_words(b, (k - 1) as nat);
        if white_space(b[k - 1]) && prev.1.len() > 0 {
            assert((words(a) + prev.0).push(prev.1) =~= words(a) + prev.0.push(prev.1));
        }
    }
}

/// Splitting the words joined by spaces gives the words back, when each is non-empty and
/// holds no whitespace.
pub proof fn lemma_words_spaced(ws: Seq<Seq<char>>)
    requires
        forall|i: int|
            0 <= i < ws.len() ==> #[trigger] ws[i].len() > 0 && forall|j: int|
                0 <= j < ws[i].len() ==> !white_space(#[trigger] ws[i][j]),
    ensures
        words(spaced(ws)) == ws,
    decreases ws.len(),
{
    if ws.len() == 0 {
        assert(scan_words(Seq::<char>::empty(), 0) == (Seq::<Seq<char>>::empty(), Seq::<char>::empty()));
    } else {
        let rest = ws.drop_first();
        assert forall|i: int|
            0 <= i < rest.len() implies #[trigger] rest[i].len() > 0 && forall|j: int|
                0 <= j < rest[i].len() ==> !white_space(#[trigger] rest[i][j]) by {
            assert(rest[i] == ws[i + 1]);
        }
        lemma_words_spaced(rest);
        assert(ws[0].len() > 0);
        lemma_one_word(ws[0]);
        lemma_words_concat(ws[0], spaced(rest));
        assert(seq![ws[0]] + rest =~= ws);
    }
}

/// The decimal digit for `d`.
pub open spec fn digit(d: nat) -> char {
    ((48 + d) as int) as char
}

/// The decimal digits of `n`, without leading zeros ("0" for zero).
pub open spec fn digits(n: nat) -> Seq<char>
    decreases n,
{
    if n < 10 {
        seq![digit(n)]
    } else {
        digits(n / 10).push(digit(n % 10))
    }
}

/// The decimal form of `x`, with a leading '-' when it is negative.
pub open spec fn decimal(x: int) -> Seq<char> {
    if x < 0 {
        seq!['-'] + digits((-x) as nat)
    } else {
        digits(x as nat)
    }
}

/// A new `String` holding the characters of `s`.
pub fn text(s: &str) -> (r: String)
    ensures
        r@ == s@,
{
    String::from_str(s)
}

/// Whether `a` reads the same as `b`.
pub fn same(a: &String, b: &str) -> (r: bool)
    ensures
        r == (a@ == b@),
{
    let t = String::from_str(b);
    *a == t
}

/// `a` followed by `b`.
pub fn join(a: &String, b: &String) -> (r: String)
    ensures
        r@ == a@ + b@,
{
    let mut r = a.clone();
    r.append(b.as_str());
    r
}

/// The words of `s`: its maximal runs of non-whitespace characters.
pub fn split_words(s: &String) -> (r: Vec<String>)
    ensures
        r.deep_view() == words(s@),
{
    let mut done: Vec<String> = Vec::new();
    let mut cur = String::new();
    let ghost full = s@;
    for c in it: s.as_str().chars()
        invariant
            it.seq() == full,
            (done.deep_view(), cur@) == scan_words(full, it.index() as nat),
    {
        proof {
            assert(c == full[it.index() as int]);
        }
        if is_white_space(c) {
            if !cur.as_str().is_empty() {
                let mut fresh = String::new();
                std::mem::swap(&mut fresh, &mut cur);
                assert(fresh@.len() > 0);
                done.push(fresh);
                assert(done.deep_view() =~= scan_words(full, (it.index() + 1) as nat).0);
            }
        } else {
            push_char(&mut cur, c);
        }
    }
    if !cur.as_str().is_empty() {
        done.push(cur);
        assert(done.deep_view() =~= words(full));
    }
    done
}

/// `c` with ASCII upper-case made lower-case.
fn lower_one(c: char) -> (r: char)
    ensures
        r == lower_char(c),
{
    if 'A' <= c && c <= 'Z' {
        let b: u8 = c as u8;
        (b + 32) as char
    } else {
        c
    }
}

/// `s` with every ASCII upper-case letter made lower-case.
pub fn lowercase(s: &String) -> (r: String)
    ensures
        r@ == lower(s@),
{
    let mut r = String::new();
    let ghost full = s@;
    for c in it: s.as_str().chars()
        invariant
            it.seq() == full,
            r@ == lower(full.take(it.index() as int)),
    {
        proof {
            assert(c == full[it.index() as int]);
        }
        push_char(&mut r, lower_one(c));
        assert(lower(full.take(it.index() + 1)) =~= lower(full.take(it.index() as int)).push(
            lower_char(c),
        ));
    }
    assert(full.take(full.len() as int) =~= full);
    r
}

/// The decimal digits of `n`.
fn digits_of(n: u64) -> (r: String)
    ensures
        r@ == digits(n as nat),
    decreases n,
{
    let d: u8 = (n % 10) as u8;
    let ch: char = (48u8 + d) as char;
    if n < 10 {
        let mut r = String::new();
        push_char(&mut r, ch);
        assert(r@ =~= seq![digit(n as nat)]);
        r
    } else {
        let mut r = digits_of(n / 10);
        push_char(&mut r, ch);
        r
    }
}

/// The decimal form of `x`, as `format!("{}", x)` writes it.
pub fn decimal_text(x: i32) -> (r: String)
    ensures
        r@ == decimal(x as int),
{
    if x < 0 {
        let m: i64 = x as i64;
        let n: u64 = (0 - m) as u64;
        let mut r = String::new();
        push_char(&mut r, '-');
        let d = digits_of(n);
        r.append(d.as_str());
        assert(r@ =~= decimal(x as int));
        r
    } else {
        digits_of(x as u64)
    }
}

} // verus!
