//! Path syntax: whitespace trimming, splitting into components, and splitting
//! off the last component.
use vstd::prelude::*;
use crate::errors::FsError;
use crate::text::chars_of;

verus! {

/// Unicode White_Space, the set that `char::is_whitespace` and `str::trim` use.
pub open spec fn is_ws(c: char) -> bool {
    ||| ('\u{9}' <= c && c <= '\u{D}')
    ||| c == ' '
    ||| c == '\u{85}'
    ||| c == '\u{A0}'
    ||| c == '\u{1680}'
    ||| ('\u{2000}' <= c && c <= '\u{200A}')
    ||| c == '\u{2028}'
    ||| c == '\u{2029}'
    ||| c == '\u{202F}'
    ||| c == '\u{205F}'
    ||| c == '\u{3000}'
}

/// Whether `c` is Unicode whitespace.
pub fn is_whitespace_char(c: char) -> (r: bool)
    ensures
        r == is_ws(c),
{
    ('\u{9}' <= c && c <= '\u{D}') || c == ' ' || c == '\u{85}' || c == '\u{A0}' || c == '\u{1680}'
        || ('\u{2000}' <= c && c <= '\u{200A}') || c == '\u{2028}' || c == '\u{2029}' || c
        == '\u{202F}' || c == '\u{205F}' || c == '\u{3000}'
}

/// `s` without its leading whitespace.
pub open spec fn trim_start(s: Seq<char>) -> Seq<char>
    decreases s.len(),
{
    if s.len() > 0 && is_ws(s[0]) {
        trim_start(s.drop_first())
    } else {
        s
    }
}

/// `s` without its trailing whitespace.
pub open spec fn trim_end(s: Seq<char>) -> Seq<char>
    decreases s.len(),
{
    if s.len() > 0 && is_ws(s.last()) {
        trim_end(s.drop_last())
    } else {
        s
    }
}

/// `s` without leading and trailing whitespace (`str::trim`).
pub open spec fn trim(s: Seq<char>) -> Seq<char> {
    trim_end(trim_start(s))
}

/// `s` without its trailing slashes (`str::trim_end_matches('/')`).
pub open spec fn trim_end_slashes(s: Seq<char>) -> Seq<char>
    decreases s.len(),
{
    if s.len() > 0 && s.last() == '/' {
        trim_end_slashes(s.drop_last())
    } else {
        s
    }
}

/// The pieces between slashes, empty ones included (`str::split('/')`).
pub open spec fn pieces(s: Seq<char>) -> Seq<Seq<char>>
    decreases s.len(),
{
    if s.len() == 0 {
        seq![Seq::empty()]
    } else {
        let p = pieces(s.drop_last());
        if s.last() == '/' {
            p.push(Seq::empty())
        } else {
            p.update(p.len() - 1, p.last().push(s.last()))
        }
    }
}

/// The non-empty pieces between slashes.
pub open spec fn components(s: Seq<char>) -> Seq<Seq<char>> {
    pieces(s).filter(|x: Seq<char>| x.len() > 0)
}

/// The components of an absolute path, or `InvalidPath` when the trimmed path
/// does not start with a slash.
pub open spec fn split_path_spec(path: Seq<char>) -> Result<Seq<Seq<char>>, FsError> {
    let t = trim(path);
    if t.len() == 0 || t[0] != '/' {
        Err(FsError::InvalidPath)
    } else {
        Ok(components(t))
    }
}

/// The index of the last slash (`str::rfind('/')`).
pub open spec fn last_slash(s: Seq<char>) -> Option<int>
    decreases s.len(),
{
    if s.len() == 0 {
        None
    } else if s.last() == '/' {
        Some(s.len() - 1)
    } else {
        last_slash(s.drop_last())
    }
}

/// The parent path and last component of a path.
pub open spec fn parent_and_name_spec(path: Seq<char>) -> Result<(Seq<char>, Seq<char>), FsError> {
    let p = trim_end_slashes(trim(path));
    if p.len() == 0 || p == seq!['/'] {
        Err(FsError::InvalidPath)
    } else {
        match last_slash(p) {
            None => Err(FsError::InvalidPath),
            Some(pos) => {
                let parent = if pos == 0 {
                    seq!['/']
                } else {
                    p.take(pos)
                };
                let name = p.skip(pos + 1);
                if name.len() == 0 {
                    Err(FsError::InvalidPath)
                } else {
                    Ok((parent, name))
                }
            },
        }
    }
}

/// The character views of a sequence of strings.
pub open spec fn strings_view(v: Seq<String>) -> Seq<Seq<char>> {
    v.map_values(|s: String| s@)
}

pub proof fn lemma_pieces_len(s: Seq<char>)
    ensures
        pieces(s).len() >= 1,
    decreases s.len(),
{
    if s.len() > 0 {
        lemma_pieces_len(s.drop_last());
    }
}

/// A sequence that starts and ends with something other than whitespace is
/// its own trim.
pub proof fn lemma_trim_unchanged(s: Seq<char>)
    requires
        s.len() > 0,
        !is_ws(s[0]),
        !is_ws(s.last()),
    ensures
        trim(s) == s,
{
}

/// Trimming never lengthens, and strips a leading whitespace character.
pub proof fn lemma_trim_start_len(s: Seq<char>)
    ensures
        trim_start(s).len() <= s.len(),
        s.len() > 0 && is_ws(s[0]) ==> trim_start(s).len() < s.len(),
        trim_start(s).len() == s.len() ==> trim_start(s) == s,
    decreases s.len(),
{
    if s.len() > 0 && is_ws(s[0]) {
        lemma_trim_start_len(s.drop_first());
    }
}

proof fn lemma_trim_end_len(s: Seq<char>)
    ensures
        trim_end(s).len() <= s.len(),
        s.len() > 0 && is_ws(s.last()) ==> trim_end(s).len() < s.len(),
    decreases s.len(),
{
    if s.len() > 0 && is_ws(s.last()) {
        lemma_trim_end_len(s.drop_last());
    }
}

/// A non-empty sequence that is its own trim starts and ends with something
/// other than whitespace.
pub proof fn lemma_trimmed_ends(s: Seq<char>)
    requires
        trim(s) == s,
        s.len() > 0,
    ensures
        !is_ws(s[0]),
        !is_ws(s.last()),
{
    lemma_trim_start_len(s);
    lemma_trim_end_len(trim_start(s));
    assert(trim_start(s) == s);
}

/// Appending a slash and a slash-free piece adds that piece.
pub proof fn lemma_pieces_append(s: Seq<char>, c: Seq<char>)
    requires
        !c.contains('/'),
    ensures
        pieces(s + seq!['/'] + c) == pieces(s).push(c),
    decreases c.len(),
{
    let t = s + seq!['/'] + c;
    if c.len() == 0 {
        assert(t.drop_last() =~= s);
        assert(c =~= Seq::<char>::empty());
    } else {
        assert(t.drop_last() =~= s + seq!['/'] + c.drop_last());
        assert(!c.drop_last().contains('/')) by {
            if c.drop_last().contains('/') {
                let k = choose|k: int| 0 <= k < c.drop_last().len() && c.drop_last()[k] == '/';
                assert(c[k] == '/');
            }
        }
        lemma_pieces_append(s, c.drop_last());
        assert(t.last() == c.last());
        assert(c.last() != '/') by {
            assert(c[c.len() - 1] == c.last());
        }
        assert(c.drop_last().push(c.last()) =~= c);
        assert(pieces(s).push(c.drop_last()).update(pieces(s).len() as int, c) =~= pieces(s).push(c));
    }
}

/// Appending a slash and a non-empty, slash-free name adds that component.
pub proof fn lemma_components_append(s: Seq<char>, c: Seq<char>)
    requires
        !c.contains('/'),
        c.len() > 0,
    ensures
        components(s + seq!['/'] + c) == components(s).push(c),
{
    lemma_pieces_append(s, c);
    pieces(s).lemma_filter_push(c, |x: Seq<char>| x.len() > 0);
}

/// A trailing slash adds no component.
pub proof fn lemma_components_slash(s: Seq<char>)
    ensures
        components(s + seq!['/']) == components(s),
{
    lemma_pieces_append(s, Seq::empty());
    assert(s + seq!['/'] + Seq::<char>::empty() =~= s + seq!['/']);
    pieces(s).lemma_filter_push(Seq::empty(), |x: Seq<char>| x.len() > 0);
}

/// A leading slash adds an empty piece in front.
proof fn lemma_pieces_prepend_slash(s: Seq<char>)
    ensures
        pieces(seq!['/'] + s) == seq![Seq::<char>::empty()] + pieces(s),
    decreases s.len(),
{
    let t = seq!['/'] + s;
    if s.len() == 0 {
        assert(t =~= seq!['/']);
        assert(t.drop_last() =~= Seq::<char>::empty());
        assert(s =~= Seq::<char>::empty());
        assert(t.last() == '/');
        assert(pieces(Seq::<char>::empty()) == seq![Seq::<char>::empty()]);
        assert(pieces(t) == pieces(t.drop_last()).push(Seq::<char>::empty()));
        assert(pieces(t) =~= seq![Seq::<char>::empty()] + pieces(s));
    } else {
        assert(t.drop_last() =~= seq!['/'] + s.drop_last());
        lemma_pieces_prepend_slash(s.drop_last());
        lemma_pieces_len(s.drop_last());
        assert(t.last() == s.last());
        let p = pieces(s.drop_last());
        if s.last() == '/' {
            assert(pieces(t) =~= seq![Seq::<char>::empty()] + p.push(Seq::empty()));
        } else {
            let q = seq![Seq::<char>::empty()] + p;
            assert(q.update(q.len() - 1, q.last().push(s.last())) =~= seq![Seq::<char>::empty()]
                + p.update(p.len() - 1, p.last().push(s.last())));
        }
    }
}

/// A leading slash adds no component.
pub proof fn lemma_components_prepend_slash(s: Seq<char>)
    ensures
        components(seq!['/'] + s) == components(s),
{
    lemma_pieces_prepend_slash(s);
    pieces(s).lemma_filter_prepend(Seq::<char>::empty(), |x: Seq<char>| x.len() > 0);
    assert(Seq::<Seq<char>>::empty() + components(s) =~= components(s));
}

/// The empty path has no components.
pub proof fn lemma_components_empty()
    ensures
        components(Seq::<char>::empty()) == Seq::<Seq<char>>::empty(),
{
    assert(pieces(Seq::<char>::empty()) =~= Seq::<Seq<char>>::empty().push(Seq::<char>::empty()));
    Seq::<Seq<char>>::empty().lemma_filter_push(Seq::<char>::empty(), |x: Seq<char>| x.len() > 0);
    assert(Seq::<Seq<char>>::empty().filter(|x: Seq<char>| x.len() > 0) =~= Seq::<Seq<char>>::empty());
}

/// No piece holds a slash.
proof fn lemma_pieces_no_slash(s: Seq<char>)
    ensures
        forall|k: int| 0 <= k < pieces(s).len() ==> !(#[trigger] pieces(s)[k]).contains('/'),
    decreases s.len(),
{
    if s.len() > 0 {
        lemma_pieces_no_slash(s.drop_last());
        lemma_pieces_len(s.drop_last());
        let p = pieces(s.drop_last());
        if s.last() != '/' {
            let l = p.last().push(s.last());
            assert(!l.contains('/')) by {
                if l.contains('/') {
                    let j = choose|j: int| 0 <= j < l.len() && l[j] == '/';
                    if j < p.last().len() {
                        assert(p[p.len() - 1][j] == '/');
                        assert(p[p.len() - 1].contains('/'));
                    }
                }
            }
        } else {
            assert(!Seq::<char>::empty().contains('/'));
        }
    } else {
        assert(!Seq::<char>::empty().contains('/'));
    }
}

/// Components are non-empty and hold no slash.
pub proof fn lemma_components_plain(s: Seq<char>)
    ensures
        forall|k: int| 0 <= k < components(s).len() ==> (#[trigger] components(s)[k]).len() > 0
            && !components(s)[k].contains('/'),
{
    lemma_pieces_no_slash(s);
    let pred = |x: Seq<char>| x.len() > 0;
    assert forall|k: int| 0 <= k < components(s).len() implies (#[trigger] components(s)[k]).len() > 0
        && !components(s)[k].contains('/') by {
        pieces(s).lemma_filter_pred(pred, k);
        assert(pieces(s).filter(pred).contains(components(s)[k])) by {
            assert(pieces(s).filter(pred)[k] == components(s)[k]);
        }
        pieces(s).lemma_filter_contains_rev(pred, components(s)[k]);
        let j = choose|j: int| 0 <= j < pieces(s).len() && pieces(s)[j] == components(s)[k];
        assert(!pieces(s)[j].contains('/'));
    }
}

/// The last slash of `s` followed by a slash and a slash-free piece is the
/// added one.
pub proof fn lemma_last_slash_append(s: Seq<char>, c: Seq<char>)
    requires
        !c.contains('/'),
    ensures
        last_slash(s + seq!['/'] + c) == Some(s.len() as int),
    decreases c.len(),
{
    let t = s + seq!['/'] + c;
    if c.len() == 0 {
        assert(t.last() == '/');
    } else {
        assert(t.drop_last() =~= s + seq!['/'] + c.drop_last());
        assert(!c.drop_last().contains('/')) by {
            if c.drop_last().contains('/') {
                let k = choose|k: int| 0 <= k < c.drop_last().len() && c.drop_last()[k] == '/';
                assert(c[k] == '/');
            }
        }
        assert(c[c.len() - 1] == c.last());
        lemma_last_slash_append(s, c.drop_last());
    }
}

/// A slash splits the pieces of what comes before it from those after it.
proof fn lemma_pieces_concat_slash(a: Seq<char>, b: Seq<char>)
    ensures
        pieces(a + seq!['/'] + b) == pieces(a) + pieces(b),
    decreases b.len(),
{
    let t = a + seq!['/'] + b;
    if b.len() == 0 {
        assert(t.drop_last() =~= a);
        assert(t.last() == '/');
        assert(pieces(b) == seq![Seq::<char>::empty()]);
        assert(pieces(a).push(Seq::<char>::empty()) =~= pieces(a) + seq![Seq::<char>::empty()]);
    } else {
        assert(t.drop_last() =~= a + seq!['/'] + b.drop_last());
        lemma_pieces_concat_slash(a, b.drop_last());
        lemma_pieces_len(b.drop_last());
        assert(t.last() == b.last());
        let x = pieces(a);
        let y = pieces(b.drop_last());
        if b.last() == '/' {
            assert((x + y).push(Seq::<char>::empty()) =~= x + y.push(Seq::<char>::empty()));
        } else {
            let z = x + y;
            assert(z.last() == y.last());
            assert(z.update(z.len() - 1, z.last().push(b.last())) =~= x + y.update(
                y.len() - 1,
                y.last().push(b.last()),
            ));
        }
    }
}

/// A slash splits the components of what comes before it from those after it.
pub proof fn lemma_components_concat_slash(a: Seq<char>, b: Seq<char>)
    ensures
        components(a + seq!['/'] + b) == components(a) + components(b),
{
    lemma_pieces_concat_slash(a, b);
    Seq::filter_distributes_over_add(pieces(a), pieces(b), |x: Seq<char>| x.len() > 0);
}

/// Trimming trailing slashes keeps a prefix and drops only slashes; what is
/// left does not end in a slash.
pub proof fn lemma_trim_end_slashes(s: Seq<char>)
    ensures
        trim_end_slashes(s).len() <= s.len(),
        trim_end_slashes(s) == s.take(trim_end_slashes(s).len() as int),
        forall|k: int| trim_end_slashes(s).len() <= k < s.len() ==> s[k] == '/',
        trim_end_slashes(s).len() > 0 ==> trim_end_slashes(s).last() != '/',
    decreases s.len(),
{
    if s.len() > 0 && s.last() == '/' {
        lemma_trim_end_slashes(s.drop_last());
        let r = trim_end_slashes(s);
        assert(r == trim_end_slashes(s.drop_last()));
        assert(s.drop_last().take(r.len() as int) =~= s.take(r.len() as int));
        assert forall|k: int| r.len() <= k < s.len() implies s[k] == '/' by {
            if k < s.len() - 1 {
                assert(s.drop_last()[k] == s[k]);
            }
        }
    } else {
        assert(s.take(s.len() as int) =~= s);
    }
}

/// Trailing slashes add no component.
pub proof fn lemma_components_trim_slashes(s: Seq<char>)
    ensures
        components(s) == components(trim_end_slashes(s)),
    decreases s.len(),
{
    if s.len() > 0 && s.last() == '/' {
        lemma_components_trim_slashes(s.drop_last());
        lemma_components_slash(s.drop_last());
        assert(s.drop_last() + seq!['/'] =~= s);
    }
}

/// Trailing whitespace is trimmed from what follows a character that is not
/// whitespace, and no further.
pub proof fn lemma_trim_end_concat(s: Seq<char>, t: Seq<char>)
    requires
        s.len() > 0,
        !is_ws(s.last()),
    ensures
        trim_end(s + t) == s + trim_end(t),
    decreases t.len(),
{
    if t.len() == 0 {
        assert(s + t =~= s);
        assert(trim_end(t) == t);
        assert(s + trim_end(t) =~= s);
        assert(trim_end(s) == s);
    } else {
        assert((s + t).last() == t.last());
        if is_ws(t.last()) {
            assert((s + t).drop_last() =~= s + t.drop_last());
            lemma_trim_end_concat(s, t.drop_last());
            assert(trim_end(s + t) == trim_end((s + t).drop_last()));
            assert(trim_end(t) == trim_end(t.drop_last()));
        } else {
            assert(trim_end(s + t) == s + t);
            assert(trim_end(t) == t);
        }
    }
}

/// Trimming trailing whitespace keeps a prefix, which does not end in
/// whitespace.
pub proof fn lemma_trim_end_prefix(s: Seq<char>)
    ensures
        trim_end(s).len() <= s.len(),
        trim_end(s) == s.take(trim_end(s).len() as int),
        trim_end(s).len() > 0 ==> !is_ws(trim_end(s).last()),
    decreases s.len(),
{
    if s.len() > 0 && is_ws(s.last()) {
        lemma_trim_end_prefix(s.drop_last());
        let r = trim_end(s);
        assert(r == trim_end(s.drop_last()));
        assert(s.drop_last().take(r.len() as int) =~= s.take(r.len() as int));
    } else {
        assert(s.take(s.len() as int) =~= s);
    }
}

/// The bounds of `cs` with surrounding whitespace removed.
pub fn trim_range(cs: &Vec<char>) -> (r: (usize, usize))
    ensures
        r.0 <= r.1 <= cs@.len(),
        cs@.subrange(r.0 as int, r.1 as int) == trim(cs@),
{
    let n = cs.len();
    let mut a: usize = 0;
    assert(cs@.subrange(0, n as int) =~= cs@);
    while a < n && is_whitespace_char(cs[a])
        invariant
            n == cs@.len(),
            a <= n,
            trim_start(cs@) == trim_start(cs@.subrange(a as int, n as int)),
        decreases n - a,
    {
        assert(cs@.subrange(a as int, n as int).drop_first() =~= cs@.subrange(a + 1, n as int));
        a = a + 1;
    }
    assert(trim_start(cs@) == cs@.subrange(a as int, n as int));
    let mut b: usize = n;
    while b > a && is_whitespace_char(cs[b - 1])
        invariant
            n == cs@.len(),
            a <= b <= n,
            trim(cs@) == trim_end(cs@.subrange(a as int, b as int)),
        decreases b,
    {
        assert(cs@.subrange(a as int, b as int).drop_last() =~= cs@.subrange(a as int, b - 1));
        b = b - 1;
    }
    (a, b)
}

/// Splits an absolute path into its non-empty components.
pub fn split_path(path: &str) -> (r: Result<Vec<String>, FsError>)
    ensures
        match (r, split_path_spec(path@)) {
            (Ok(v), Ok(c)) => strings_view(v@) == c,
            (Err(e1), Err(e2)) => e1 == e2,
            _ => false,
        },
{
    let cs = chars_of(path);
    let (a, b) = trim_range(&cs);
    if a == b || cs[a] != '/' {
        return Err(FsError::InvalidPath);
    }
    let ghost t = cs@.subrange(a as int, b as int);
    let mut out: Vec<String> = Vec::new();
    let ghost mut done: Seq<Seq<char>> = Seq::empty();
    let mut cur: usize = a;
    let mut j: usize = a;
    assert(cs@.subrange(a as int, a as int) =~= Seq::<char>::empty());
    assert(pieces(Seq::<char>::empty()) =~= done.push(cs@.subrange(cur as int, j as int)));
    proof { reveal(Seq::filter); }
    while j < b
        invariant
            a <= cur <= j <= b <= cs@.len(),
            cs@ == path@,
            pieces(cs@.subrange(a as int, j as int)) == done.push(cs@.subrange(cur as int, j as int)),
            strings_view(out@) == done.filter(|x: Seq<char>| x.len() > 0),
        decreases b - j,
    {
        let ghost prev = cs@.subrange(a as int, j as int);
        assert(cs@.subrange(a as int, j + 1).drop_last() =~= prev);
        let c = cs[j];
        if c == '/' {
            let ghost piece = cs@.subrange(cur as int, j as int);
            if cur < j {
                let s = path.substring_char(cur, j).to_owned();
                out.push(s);
                proof { reveal(Seq::filter); }
                assert(strings_view(out@) =~= done.push(piece).filter(|x: Seq<char>| x.len() > 0)) by {
                    reveal(Seq::filter);
                    assert(done.push(piece).drop_last() =~= done);
                }
            } else {
                assert(strings_view(out@) =~= done.push(piece).filter(|x: Seq<char>| x.len() > 0)) by {
                    reveal(Seq::filter);
                    assert(done.push(piece).drop_last() =~= done);
                }
            }
            proof {
                done = done.push(piece);
            }
            j = j + 1;
            cur = j;
            assert(cs@.subrange(cur as int, j as int) =~= Seq::<char>::empty());
        } else {
            proof {
                lemma_pieces_len(prev);
                assert(cs@.subrange(cur as int, j + 1) =~= cs@.subrange(cur as int, j as int).push(c));
            }
            j = j + 1;
        }
    }
    assert(cs@.subrange(a as int, b as int) == t);
    let ghost last = cs@.subrange(cur as int, b as int);
    if cur < b {
        let s = path.substring_char(cur, b).to_owned();
        out.push(s);
    }
    assert(strings_view(out@) =~= done.push(last).filter(|x: Seq<char>| x.len() > 0)) by {
        reveal(Seq::filter);
        assert(done.push(last).drop_last() =~= done);
    }
    Ok(out)
}

/// Splits a path into its parent path and its last component.
pub fn split_parent(path: &str) -> (r: Result<(String, String), FsError>)
    ensures
        match (r, parent_and_name_spec(path@)) {
            (Ok((p, n)), Ok((sp, sn))) => p@ == sp && n@ == sn,
            (Err(e1), Err(e2)) => e1 == e2,
            _ => false,
        },
{
    let cs = chars_of(path);
    let (a, b) = trim_range(&cs);
    let mut e: usize = b;
    while e > a && cs[e - 1] == '/'
        invariant
            a <= e <= b <= cs@.len(),
            trim_end_slashes(trim(cs@)) == trim_end_slashes(cs@.subrange(a as int, e as int)),
        decreases e,
    {
        assert(cs@.subrange(a as int, e as int).drop_last() =~= cs@.subrange(a as int, e - 1));
        e = e - 1;
    }
    let ghost p = cs@.subrange(a as int, e as int);
    assert(trim_end_slashes(trim(cs@)) == p);
    if e == a {
        return Err(FsError::InvalidPath);
    }
    if e == a + 1 && cs[a] == '/' {
        assert(p =~= seq!['/']);
        return Err(FsError::InvalidPath);
    }
    assert(p != seq!['/']);
    let mut k: usize = e;
    while k > a && cs[k - 1] != '/'
        invariant
            a <= k <= e <= cs@.len(),
            p == cs@.subrange(a as int, e as int),
            last_slash(p) == last_slash(cs@.subrange(a as int, k as int)),
        decreases k,
    {
        assert(cs@.subrange(a as int, k as int).drop_last() =~= cs@.subrange(a as int, k - 1));
        k = k - 1;
    }
    if k == a {
        assert(cs@.subrange(a as int, a as int) =~= Seq::<char>::empty());
        return Err(FsError::InvalidPath);
    }
    let pos = k - 1;
    assert(last_slash(p) == Some((pos - a) as int));
    let parent = if pos == a {
        proof { reveal_strlit("/"); }
        String::from_str("/")
    } else {
        assert(p.take((pos - a) as int) =~= cs@.subrange(a as int, pos as int));
        path.substring_char(a, pos).to_owned()
    };
    assert(p.skip((pos - a) + 1) =~= cs@.subrange(pos + 1, e as int));
    if pos + 1 == e {
        return Err(FsError::InvalidPath);
    }
    let name = path.substring_char(pos + 1, e).to_owned();
    Ok((parent, name))
}

/// Whether a component is `.` or `..`, which resolution stays on.
pub fn is_dot_or_dotdot(s: &String) -> (r: bool)
    ensures
        r == (s@ == seq!['.'] || s@ == seq!['.', '.']),
{
    let cs = chars_of(s.as_str());
    if cs.len() == 1 && cs[0] == '.' {
        assert(s@ =~= seq!['.']);
        true
    } else if cs.len() == 2 && cs[0] == '.' && cs[1] == '.' {
        assert(s@ =~= seq!['.', '.']);
        true
    } else {
        false
    }
}

} // verus!
