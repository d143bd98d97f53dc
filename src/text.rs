//! Character classes and string operations on which the tokenizer, the
//! renderer and the response parser are built. Each operation is stated over
//! `Seq<char>`, the view of `str` and `String`.
use vstd::prelude::*;

verus! {

/// The view of each string of a sequence.
pub open spec fn views(v: Seq<String>) -> Seq<Seq<char>> {
    v.map_values(|s: String| s@)
}

/// A CJK unified ideograph: the basic block and extensions A to F.
pub open spec fn is_cjk(c: char) -> bool {
    ||| ('\u{4e00}' <= c && c <= '\u{9fff}')
    ||| ('\u{3400}' <= c && c <= '\u{4dbf}')
    ||| ('\u{20000}' <= c && c <= '\u{2a6df}')
    ||| ('\u{2a700}' <= c && c <= '\u{2b73f}')
    ||| ('\u{2b740}' <= c && c <= '\u{2b81f}')
    ||| ('\u{2b820}' <= c && c <= '\u{2ceaf}')
    ||| ('\u{2ceb0}' <= c && c <= '\u{2ebef}')
}

/// `s` holds at least one CJK ideograph.
pub open spec fn has_cjk(s: Seq<char>) -> bool {
    exists|i: int| 0 <= i < s.len() && is_cjk(#[trigger] s[i])
}

/// A character of the Unicode property White_Space, the class that
/// `char::is_whitespace`, `str::trim` and `str::split_whitespace` use.
pub open spec fn is_white_space(c: char) -> bool {
    ||| ('\u{9}' <= c && c <= '\u{d}')
    ||| c == ' '
    ||| c == '\u{85}'
    ||| c == '\u{a0}'
    ||| c == '\u{1680}'
    ||| ('\u{2000}' <= c && c <= '\u{200a}')
    ||| c == '\u{2028}'
    ||| c == '\u{2029}'
    ||| c == '\u{202f}'
    ||| c == '\u{205f}'
    ||| c == '\u{3000}'
}

pub fn is_chinese_char(c: char) -> (r: bool)
    ensures
        r == is_cjk(c),
{
    ('\u{4e00}' <= c && c <= '\u{9fff}') || ('\u{3400}' <= c && c <= '\u{4dbf}') || ('\u{20000}'
        <= c && c <= '\u{2a6df}') || ('\u{2a700}' <= c && c <= '\u{2b73f}') || ('\u{2b740}' <= c
        && c <= '\u{2b81f}') || ('\u{2b820}' <= c && c <= '\u{2ceaf}') || ('\u{2ceb0}' <= c && c
        <= '\u{2ebef}')
}

pub fn is_whitespace_char(c: char) -> (r: bool)
    ensures
        r == is_white_space(c),
{
    ('\u{9}' <= c && c <= '\u{d}') || c == ' ' || c == '\u{85}' || c == '\u{a0}' || c == '\u{1680}'
        || ('\u{2000}' <= c && c <= '\u{200a}') || c == '\u{2028}' || c == '\u{2029}' || c
        == '\u{202f}' || c == '\u{205f}' || c == '\u{3000}'
}

/// Whether `s` holds a CJK ideograph.
pub fn contains_cjk(s: &str) -> (r: bool)
    ensures
        r == has_cjk(s@),
{
    let mut found = false;
    for c in it: s.chars()
        invariant
            it.seq() == s@,
            found == has_cjk(s@.subrange(0, it.index() as int)),
    {
        let ghost i = it.index() as int;
        proof {
            let pre = s@.subrange(0, i);
            let post = s@.subrange(0, i + 1);
            assert(post == pre.push(c));
            if has_cjk(pre) {
                let k = choose|k: int| 0 <= k < pre.len() && is_cjk(#[trigger] pre[k]);
                assert(post[k] == pre[k]);
            }
            if has_cjk(post) && !is_cjk(c) {
                let k = choose|k: int| 0 <= k < post.len() && is_cjk(#[trigger] post[k]);
                assert(k < i);
                assert(pre[k] == post[k]);
            }
            if is_cjk(c) {
                assert(post[i] == c);
            }
        }
        found = found || is_chinese_char(c);
    }
    proof {
        assert(s@.subrange(0, s@.len() as int) == s@);
    }
    found
}

/// Relies on `String::push`: the character is appended.
#[verifier::external_body]
pub fn push_char(s: &mut String, c: char)
    ensures
        final(s)@ == old(s)@.push(c),
{
    s.push(c);
}

/// Words completed so far, and the word being read, after reading `s` from
/// left to right; words are the maximal runs of characters that are not
/// white space.
pub open spec fn word_scan(s: Seq<char>) -> (Seq<Seq<char>>, Seq<char>)
    decreases s.len(),
{
    if s.len() == 0 {
        (Seq::empty(), Seq::empty())
    } else {
        let prev = word_scan(s.drop_last());
        if is_white_space(s.last()) {
            if prev.1.len() == 0 {
                prev
            } else {
                (prev.0.push(prev.1), Seq::empty())
            }
        } else {
            (prev.0, prev.1.push(s.last()))
        }
    }
}

/// The maximal runs of non-white-space characters of `s`, in order.
pub open spec fn words(s: Seq<char>) -> Seq<Seq<char>> {
    let scan = word_scan(s);
    if scan.1.len() == 0 {
        scan.0
    } else {
        scan.0.push(scan.1)
    }
}

/// Splits `s` at white space, as `str::split_whitespace` does.
pub fn split_whitespace(s: &str) -> (r: Vec<String>)
    ensures
        views(r@) == words(s@),
{
    let mut done: Vec<String> = Vec::new();
    let mut cur = String::new();
    for c in it: s.chars()
        invariant
            it.seq() == s@,
            views(done@) == word_scan(s@.subrange(0, it.index() as int)).0,
            cur@ == word_scan(s@.subrange(0, it.index() as int)).1,
    {
        let ghost i = it.index() as int;
        proof {
            assert(s@.subrange(0, i + 1).drop_last() == s@.subrange(0, i));
            assert(s@.subrange(0, i + 1).last() == c);
        }
        if is_whitespace_char(c) {
            if !cur.as_str().is_empty() {
                let ghost old_done = done@;
                done.push(cur);
                cur = String::new();
                proof {
                    assert(views(done@) == views(old_done).push(done@.last()@));
                }
            }
        } else {
            push_char(&mut cur, c);
        }
    }
    proof {
        assert(s@.subrange(0, s@.len() as int) == s@);
    }
    if !cur.as_str().is_empty() {
        let ghost old_done = done@;
        done.push(cur);
        proof {
            assert(views(done@) == views(old_done).push(done@.last()@));
        }
    }
    done
}

/// Pieces completed so far, and the piece being read, after reading `s`
/// from left to right, where `sep` ends a piece.
pub open spec fn piece_scan(s: Seq<char>, sep: char) -> (Seq<Seq<char>>, Seq<char>)
    decreases s.len(),
{
    if s.len() == 0 {
        (Seq::empty(), Seq::empty())
    } else {
        let prev = piece_scan(s.drop_last(), sep);
        if s.last() == sep {
            (prev.0.push(prev.1), Seq::empty())
        } else {
            (prev.0, prev.1.push(s.last()))
        }
    }
}

/// The pieces of `s` between occurrences of `sep`: one more than there are
/// separators, empty ones included.
pub open spec fn pieces(s: Seq<char>, sep: char) -> Seq<Seq<char>> {
    piece_scan(s, sep).0.push(piece_scan(s, sep).1)
}

/// Splits `s` at every `sep`, as `str::split` with a character does.
pub fn split_on(s: &str, sep: char) -> (r: Vec<String>)
    ensures
        views(r@) == pieces(s@, sep),
{
    let mut done: Vec<String> = Vec::new();
    let mut cur = String::new();
    for c in it: s.chars()
        invariant
            it.seq() == s@,
            views(done@) == piece_scan(s@.subrange(0, it.index() as int), sep).0,
            cur@ == piece_scan(s@.subrange(0, it.index() as int), sep).1,
    {
        let ghost i = it.index() as int;
        proof {
            assert(s@.subrange(0, i + 1).drop_last() == s@.subrange(0, i));
            assert(s@.subrange(0, i + 1).last() == c);
        }
        if c == sep {
            let ghost old_done = done@;
            done.push(cur);
            cur = String::new();
            proof {
                assert(views(done@) == views(old_done).push(done@.last()@));
            }
        } else {
            push_char(&mut cur, c);
        }
    }
    proof {
        assert(s@.subrange(0, s@.len() as int) == s@);
    }
    let ghost old_done = done@;
    done.push(cur);
    proof {
        assert(views(done@) == views(old_done).push(done@.last()@));
    }
    done
}

/// Whether `s` holds the character `c`.
pub fn contains_char(s: &str, c: char) -> (r: bool)
    ensures
        r == s@.contains(c),
{
    let mut found = false;
    for d in it: s.chars()
        invariant
            it.seq() == s@,
            found == s@.subrange(0, it.index() as int).contains(c),
    {
        let ghost i = it.index() as int;
        proof {
            let pre = s@.subrange(0, i);
            let post = s@.subrange(0, i + 1);
            assert(post == pre.push(d));
            if pre.contains(c) {
                let k = choose|k: int| 0 <= k < pre.len() && pre[k] == c;
                assert(post[k] == c);
            }
            if post.contains(c) && d != c {
                let k = choose|k: int| 0 <= k < post.len() && post[k] == c;
                assert(pre[k] == c);
            }
            assert(post[i] == d);
        }
        found = found || d == c;
    }
    proof {
        assert(s@.subrange(0, s@.len() as int) == s@);
    }
    found
}

/// `s` without its leading white space.
pub open spec fn trim_start(s: Seq<char>) -> Seq<char>
    decreases s.len(),
{
    if s.len() > 0 && is_white_space(s[0]) {
        trim_start(s.drop_first())
    } else {
        s
    }
}

/// `s` without its trailing white space.
pub open spec fn trim_end(s: Seq<char>) -> Seq<char>
    decreases s.len(),
{
    if s.len() > 0 && is_white_space(s.last()) {
        trim_end(s.drop_last())
    } else {
        s
    }
}

/// `s` without leading and trailing white space.
pub open spec fn trimmed(s: Seq<char>) -> Seq<char> {
    trim_end(trim_start(s))
}

/// The characters of `s`, in order.
pub fn char_vec(s: &str) -> (r: Vec<char>)
    ensures
        r@ == s@,
{
    let mut out: Vec<char> = Vec::new();
    for c in it: s.chars()
        invariant
            out@ == it.seq().subrange(0, it.index() as int),
    {
        out.push(c);
    }
    out
}

/// Removes leading and trailing white space, as `str::trim` does.
pub fn trim(s: &str) -> (r: String)
    ensures
        r@ == trimmed(s@),
{
    let v = char_vec(s);
    let n = v.len();
    let mut i: usize = 0;
    proof {
        assert(v@.subrange(0, n as int) == v@);
    }
    while i < n && is_whitespace_char(v[i])
        invariant
            v@ == s@,
            n == v@.len(),
            i <= n,
            trim_start(v@.subrange(i as int, n as int)) == trim_start(v@),
        decreases n - i,
    {
        proof {
            assert(v@.subrange(i as int, n as int).drop_first() == v@.subrange(i + 1, n as int));
        }
        i = i + 1;
    }
    let mut j: usize = n;
    while j > i && is_whitespace_char(v[j - 1])
        invariant
            v@ == s@,
            n == v@.len(),
            i <= j <= n,
            trim_start(v@) == v@.subrange(i as int, n as int),
            trim_end(v@.subrange(i as int, j as int)) == trimmed(s@),
        decreases j,
    {
        proof {
            assert(v@.subrange(i as int, j as int).drop_last() == v@.subrange(i as int, j - 1));
        }
        j = j - 1;
    }
    let mut r = String::new();
    let mut k: usize = i;
    while k < j
        invariant
            v@ == s@,
            n == v@.len(),
            i <= k <= j <= n,
            r@ == v@.subrange(i as int, k as int),
        decreases j - k,
    {
        push_char(&mut r, v[k]);
        proof {
            assert(v@.subrange(i as int, k + 1) == v@.subrange(i as int, k as int).push(v@[k as int]));
        }
        k = k + 1;
    }
    r
}

/// The strings of `ts` with `sep` between each two neighbours.
pub open spec fn join(ts: Seq<Seq<char>>, sep: Seq<char>) -> Seq<char>
    decreases ts.len(),
{
    if ts.len() == 0 {
        Seq::empty()
    } else if ts.len() == 1 {
        ts[0]
    } else {
        join(ts.drop_last(), sep) + sep + ts.last()
    }
}

/// Joins `ts` with `sep`, as `[String]::join` does.
pub fn join_with(ts: &[String], sep: &str) -> (r: String)
    ensures
        r@ == join(views(ts@), sep@),
{
    let mut r = String::new();
    let n = ts.len();
    for i in 0..n
        invariant
            n == ts@.len(),
            r@ == join(views(ts@).subrange(0, i as int), sep@),
    {
        proof {
            let pre = views(ts@).subrange(0, i as int);
            let post = views(ts@).subrange(0, i + 1);
            assert(post.drop_last() == pre);
            assert(post.last() == ts@[i as int]@);
        }
        if i > 0 {
            r.append(sep);
        }
        r.append(ts[i].as_str());
    }
    proof {
        assert(views(ts@).subrange(0, n as int) == views(ts@));
    }
    r
}

/// The result of `str::to_lowercase`: Unicode's full lower-case mapping.
pub uninterp spec fn lower_of(s: Seq<char>) -> Seq<char>;

/// The result of `str::to_uppercase`: Unicode's full upper-case mapping.
pub uninterp spec fn upper_of(s: Seq<char>) -> Seq<char>;

/// Relies on `str::to_lowercase`, whose result depends on the characters alone.
#[verifier::external_body]
pub fn lowercase(s: &str) -> (r: String)
    ensures
        r@ == lower_of(s@),
{
    s.to_lowercase()
}

/// Relies on `str::to_uppercase`, whose result depends on the characters alone.
#[verifier::external_body]
pub fn uppercase(s: &str) -> (r: String)
    ensures
        r@ == upper_of(s@),
{
    s.to_uppercase()
}

} // verus!
