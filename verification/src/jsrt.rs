//! JavaScript-runtime semantics that the converters reproduce.

use vstd::prelude::*;

use crate::json::{json_map_keys, map_keys};
use crate::text::{
    all_digits, chars_of, decimal_value, digit_value, is_canonical_numeral, is_digit, lemma_canonical_numeral_unique,
};

verus! {

/// The characters that JavaScript's `\s` regex class matches (no `u` flag).
pub open spec fn spec_is_js_whitespace(c: char) -> bool {
    ||| c == '\t'
    ||| c == '\n'
    ||| c == '\u{000B}'
    ||| c == '\u{000C}'
    ||| c == '\r'
    ||| c == ' '
    ||| c == '\u{00A0}'
    ||| c == '\u{1680}'
    ||| ('\u{2000}' <= c && c <= '\u{200A}')
    ||| c == '\u{2028}'
    ||| c == '\u{2029}'
    ||| c == '\u{202F}'
    ||| c == '\u{205F}'
    ||| c == '\u{3000}'
    ||| c == '\u{FEFF}'
}

/// Whether `c` is in the character set JavaScript's `\s` regex class matches.
pub fn is_js_whitespace(c: char) -> (r: bool)
    ensures
        r == spec_is_js_whitespace(c),
{
    c == '\t' || c == '\n' || c == '\u{000B}' || c == '\u{000C}' || c == '\r' || c == ' '
        || c == '\u{00A0}' || c == '\u{1680}' || ('\u{2000}' <= c && c <= '\u{200A}')
        || c == '\u{2028}' || c == '\u{2029}' || c == '\u{202F}' || c == '\u{205F}'
        || c == '\u{3000}' || c == '\u{FEFF}'
}

/// The characters of each part.
pub open spec fn part_views(parts: Seq<&str>) -> Seq<Seq<char>> {
    parts.map_values(|p: &str| p@)
}

/// The non-empty parts, joined with `/`.
pub open spec fn join_nonempty(parts: Seq<Seq<char>>) -> Seq<char>
    decreases parts.len(),
{
    if parts.len() == 0 {
        seq![]
    } else {
        let prev = join_nonempty(parts.drop_last());
        let last = parts.last();
        if last.len() == 0 {
            prev
        } else if prev.len() == 0 {
            last
        } else {
            prev + seq!['/'] + last
        }
    }
}

/// The pieces of `s` between its `/` separators, as `str::split('/')` yields
/// them: one more piece than there are separators, empty pieces included.
pub open spec fn split_slash(s: Seq<char>) -> Seq<Seq<char>>
    decreases s.len(),
{
    if s.len() == 0 {
        seq![seq![]]
    } else {
        let prev = split_slash(s.drop_last());
        if s.last() == '/' {
            prev.push(seq![])
        } else {
            prev.update(prev.len() - 1, prev.last().push(s.last()))
        }
    }
}

/// The segment `.`.
pub open spec fn dot() -> Seq<char> {
    seq!['.']
}

/// The segment `..`.
pub open spec fn dot_dot() -> Seq<char> {
    seq!['.', '.']
}

/// One segment applied to the segments kept so far: empty and `.` segments
/// are dropped; `..` removes the last kept segment unless that is itself
/// `..`, and with nothing to remove it is kept on a relative path and dropped
/// at the root of an absolute one; any other segment is kept.
pub open spec fn resolve_step(kept: Seq<Seq<char>>, seg: Seq<char>, absolute: bool) -> Seq<
    Seq<char>,
> {
    if seg.len() == 0 || seg == dot() {
        kept
    } else if seg == dot_dot() {
        if kept.len() > 0 && kept.last() != dot_dot() {
            kept.drop_last()
        } else if !absolute {
            kept.push(dot_dot())
        } else {
            kept
        }
    } else {
        kept.push(seg)
    }
}

/// The segments that remain of `segs` once every one has been applied in turn.
pub open spec fn resolve(segs: Seq<Seq<char>>, absolute: bool) -> Seq<Seq<char>>
    decreases segs.len(),
{
    if segs.len() == 0 {
        seq![]
    } else {
        resolve_step(resolve(segs.drop_last(), absolute), segs.last(), absolute)
    }
}

/// The segments joined with `/`.
pub open spec fn join_slash(segs: Seq<Seq<char>>) -> Seq<char>
    decreases segs.len(),
{
    if segs.len() == 0 {
        seq![]
    } else if segs.len() == 1 {
        segs[0]
    } else {
        join_slash(segs.drop_last()) + seq!['/'] + segs.last()
    }
}

/// Node's POSIX `path.join` of `parts`: the non-empty parts joined with `/`,
/// then normalized. A leading `/` and a trailing `/` survive normalization;
/// a path that normalizes to nothing is `/` when absolute, and otherwise `./`
/// or `.` as it had a trailing `/` or not; the join of no parts, or of only
/// empty ones, is `.`.
pub open spec fn spec_node_path_join(parts: Seq<Seq<char>>) -> Seq<char> {
    let joined = join_nonempty(parts);
    if joined.len() == 0 {
        seq!['.']
    } else {
        let absolute = joined[0] == '/';
        let trailing = joined.last() == '/';
        let segs = resolve(split_slash(joined), absolute);
        if segs.len() == 0 {
            if absolute {
                seq!['/']
            } else if trailing {
                seq!['.', '/']
            } else {
                seq!['.']
            }
        } else {
            (if absolute {
                seq!['/']
            } else {
                seq![]
            }) + join_slash(segs) + (if trailing {
                seq!['/']
            } else {
                seq![]
            })
        }
    }
}

/// The segments that a list of character ranges of `c` denotes.
pub open spec fn range_views(c: Seq<char>, ranges: Seq<(usize, usize)>) -> Seq<Seq<char>> {
    ranges.map_values(|r: (usize, usize)| c.subrange(r.0 as int, r.1 as int))
}

/// Every range lies within the first `bound` characters.
pub open spec fn ranges_within(ranges: Seq<(usize, usize)>, bound: int) -> bool {
    forall|k: int|
        0 <= k < ranges.len() ==> (#[trigger] ranges[k]).0 <= ranges[k].1 && ranges[k].1 <= bound
}

/// Whether the range `(a, b)` of `c` is the segment `..`.
fn is_dot_dot(c: &[char], a: usize, b: usize) -> (r: bool)
    requires
        a <= b <= c@.len(),
    ensures
        r == (c@.subrange(a as int, b as int) == dot_dot()),
{
    if b - a == 2 && c[a] == '.' && c[a + 1] == '.' {
        assert(c@.subrange(a as int, b as int) =~= dot_dot());
        true
    } else {
        proof {
            assert(c@.subrange(a as int, b as int).len() == b - a);
            if c@.subrange(a as int, b as int) == dot_dot() {
                assert(c@.subrange(a as int, b as int)[0] == '.');
                assert(c@.subrange(a as int, b as int)[1] == '.');
            }
        }
        false
    }
}

/// Applies the segment `(a, b)` of `c` to the kept ranges.
fn apply_segment(kept: &mut Vec<(usize, usize)>, c: &[char], a: usize, b: usize, absolute: bool)
    requires
        a <= b <= c@.len(),
        ranges_within(old(kept)@, a as int),
    ensures
        ranges_within(final(kept)@, b as int),
        range_views(c@, final(kept)@) == resolve_step(
            range_views(c@, old(kept)@),
            c@.subrange(a as int, b as int),
            absolute,
        ),
{
    let ghost seg = c@.subrange(a as int, b as int);
    let ghost before = range_views(c@, kept@);
    if b == a || (b - a == 1 && c[a] == '.') {
        proof {
            if b - a == 1 {
                assert(seg =~= dot());
            }
        }
        assert(range_views(c@, kept@) =~= before);
        return ;
    }
    assert(seg != dot()) by {
        assert(seg.len() == b - a);
        if seg == dot() {
            assert(seg[0] == c@[a as int]);
            assert(seg[0] == '.');
        }
    }
    if is_dot_dot(c, a, b) {
        let n = kept.len();
        if n > 0 && !is_dot_dot(c, kept[n - 1].0, kept[n - 1].1) {
            kept.pop();
            assert(range_views(c@, kept@) =~= before.drop_last());
        } else if !absolute {
            kept.push((a, b));
            assert(range_views(c@, kept@) =~= before.push(seg));
        } else {
            assert(range_views(c@, kept@) =~= before);
        }
    } else {
        kept.push((a, b));
        assert(range_views(c@, kept@) =~= before.push(seg));
    }
}

/// Node's `path.join` (POSIX): the non-empty parts joined with `/`, then
/// normalized, as Node does it. A leading slash and a trailing slash are
/// preserved, `..` removes the segment before it (at the root, or with
/// nothing to remove on a relative path, it is dropped or kept respectively),
/// empty and `.` segments are dropped, and a join of nothing is `.`.
pub fn node_path_join(parts: &[&str]) -> (r: String)
    ensures
        r@ == spec_node_path_join(part_views(parts@)),
{
    let ghost views = part_views(parts@);
    let mut joined = String::new();
    let mut i: usize = 0;
    while i < parts.len()
        invariant
            i <= parts@.len(),
            views == part_views(parts@),
            joined@ == join_nonempty(views.take(i as int)),
        decreases parts@.len() - i,
    {
        let p: &str = parts[i];
        proof {
            assert(views.take(i + 1).drop_last() =~= views.take(i as int));
            assert(views.take(i + 1).last() == p@);
            reveal_strlit("/");
        }
        if !p.is_empty() {
            if !joined.as_str().is_empty() {
                joined.append("/");
            }
            joined.append(p);
        }
        i = i + 1;
    }
    assert(views.take(parts@.len() as int) =~= views);
    proof {
        reveal_strlit("/");
        reveal_strlit(".");
    }
    let c = chars_of(joined.as_str());
    let n = c.len();
    if n == 0 {
        return String::from_str(".");
    }
    let absolute = c[0] == '/';
    let trailing = c[n - 1] == '/';
    let ghost cs = c@;
    let mut kept: Vec<(usize, usize)> = Vec::new();
    let mut start: usize = 0;
    let mut j: usize = 0;
    assert(cs.take(0) =~= seq![]);
    while j < n
        invariant
            n == cs.len(),
            cs == c@,
            start <= j <= n,
            ranges_within(kept@, start as int),
            split_slash(cs.take(j as int)).len() >= 1,
            split_slash(cs.take(j as int)).last() == cs.subrange(start as int, j as int),
            range_views(cs, kept@) == resolve(split_slash(cs.take(j as int)).drop_last(), absolute),
        decreases n - j,
    {
        let ghost pieces = split_slash(cs.take(j as int));
        assert(cs.take(j + 1).drop_last() =~= cs.take(j as int));
        if c[j] == '/' {
            apply_segment(&mut kept, c.as_slice(), start, j, absolute);
            proof {
                let next = split_slash(cs.take(j + 1));
                assert(next == pieces.push(seq![]));
                assert(next.drop_last() =~= pieces);
                assert(pieces =~= pieces.drop_last().push(pieces.last()));
                assert(cs.subrange(j + 1, j + 1) =~= seq![]);
            }
            start = j + 1;
        } else {
            proof {
                let next = split_slash(cs.take(j + 1));
                assert(next.drop_last() =~= pieces.drop_last());
                assert(next.last() =~= cs.subrange(start as int, j + 1));
            }
        }
        j = j + 1;
    }
    apply_segment(&mut kept, c.as_slice(), start, n, absolute);
    proof {
        let pieces = split_slash(cs.take(n as int));
        assert(cs.take(n as int) =~= cs);
        assert(pieces =~= pieces.drop_last().push(pieces.last()));
    }
    let ghost segs = range_views(cs, kept@);
    assert(segs == resolve(split_slash(cs), absolute));
    if kept.len() == 0 {
        proof {
            reveal_strlit("./");
        }
        if absolute {
            return String::from_str("/");
        } else if trailing {
            return String::from_str("./");
        } else {
            return String::from_str(".");
        }
    }
    let mut out = String::new();
    if absolute {
        out.append("/");
    }
    let ghost lead: Seq<char> = if absolute { seq!['/'] } else { seq![] };
    let mut k: usize = 0;
    while k < kept.len()
        invariant
            k <= kept@.len(),
            segs == range_views(cs, kept@),
            ranges_within(kept@, n as int),
            joined@ == cs,
            n == cs.len(),
            out@ == lead + join_slash(segs.take(k as int)),
        decreases kept@.len() - k,
    {
        let (a, b) = kept[k];
        let piece = joined.as_str().substring_char(a, b);
        proof {
            assert(ranges_within(kept@, n as int));
            assert(kept@[k as int].0 <= kept@[k as int].1);
            assert(segs.take(k + 1).drop_last() =~= segs.take(k as int));
            assert(segs[k as int] == cs.subrange(a as int, b as int));
        }
        let ghost before = out@;
        proof {
            reveal_strlit("/");
        }
        if k > 0 {
            out.append("/");
        }
        out.append(piece);
        proof {
            if k == 0 {
                assert(segs.take(1) =~= seq![segs[0]]);
                assert(out@ =~= lead + join_slash(segs.take(1)));
            } else {
                assert(segs.take(k + 1).last() == segs[k as int]);
                assert(join_slash(segs.take(k + 1)) == join_slash(segs.take(k as int)) + seq!['/']
                    + segs[k as int]);
                assert(out@ =~= lead + join_slash(segs.take(k + 1)));
            }
        }
        k = k + 1;
    }
    assert(segs.take(kept@.len() as int) =~= segs);
    if trailing {
        out.append("/");
    }
    out
}

/// The array index that a property key denotes, as JavaScript reads keys: a
/// canonical unsigned integer (digits only, no leading zero unless it is `0`)
/// below `2^32 - 1`.
pub open spec fn spec_array_index(key: Seq<char>) -> Option<u32> {
    if key.len() <= 10 && is_canonical_numeral(key) && decimal_value(key) < u32::MAX {
        Some(decimal_value(key) as u32)
    } else {
        None
    }
}

/// Whether a property key is an array index.
pub open spec fn is_index_key(key: Seq<char>) -> bool {
    spec_array_index(key) is Some
}

/// The array-index keys among `keys`, in their order.
pub open spec fn index_keys(keys: Seq<Seq<char>>) -> Seq<Seq<char>> {
    keys.filter(|k: Seq<char>| is_index_key(k))
}

/// The keys among `keys` that are not array indices, in their order.
pub open spec fn other_keys(keys: Seq<Seq<char>>) -> Seq<Seq<char>> {
    keys.filter(|k: Seq<char>| !is_index_key(k))
}

/// `r` orders the distinct keys `keys` as `Object.keys()` does: the
/// array-index keys first, each once, in ascending numeric order, then the
/// remaining keys in their original order.
pub open spec fn is_js_key_order(r: Seq<Seq<char>>, keys: Seq<Seq<char>>) -> bool {
    let n = index_keys(keys).len();
    &&& r.len() == n + other_keys(keys).len()
    &&& r.skip(n as int) == other_keys(keys)
    &&& forall|j: int| 0 <= j < n ==> keys.contains(#[trigger] r[j]) && is_index_key(r[j])
    &&& forall|a: int, b: int|
        0 <= a < b < n ==> spec_array_index(#[trigger] r[a])->0 < spec_array_index(
            #[trigger] r[b],
        )->0
}

/// The array index that `key` denotes, if it is one.
pub fn as_array_index(key: &str) -> (r: Option<u32>)
    ensures
        r == spec_array_index(key@),
{
    let c = chars_of(key);
    let n = c.len();
    if n == 0 || n > 10 {
        return None;
    }
    if n > 1 && c[0] == '0' {
        return None;
    }
    let mut value: u64 = 0;
    let mut i: usize = 0;
    while i < n
        invariant
            i <= n <= 10,
            n == c@.len(),
            c@ == key@,
            all_digits(c@.take(i as int)),
            value == decimal_value(c@.take(i as int)),
            value < 10000000000u64,
        decreases n - i,
    {
        let d = c[i];
        if !('0' <= d && d <= '9') {
            assert(!all_digits(c@)) by {
                assert(c@[i as int] == d);
            }
            return None;
        }
        proof {
            assert(c@.take(i + 1).drop_last() =~= c@.take(i as int));
            assert(c@.take(i + 1) =~= c@.take(i as int).push(d));
            lemma_decimal_value_bound(c@.take(i + 1));
            assert(all_digits(c@.take(i + 1))) by {
                assert forall|k: int| 0 <= k < i + 1 implies is_digit(#[trigger] c@.take(i + 1)[k]) by {
                    if k < i {
                        assert(c@.take(i + 1)[k] == c@.take(i as int)[k]);
                    }
                }
            }
            assert(decimal_value(c@.take(i + 1)) < 10000000000) by {
                assert(pow10(c@.take(i + 1).len()) <= pow10(10)) by {
                    lemma_pow10_mono(c@.take(i + 1).len(), 10);
                }
                assert(pow10(10) == 10000000000) by {
                    reveal_with_fuel(pow10, 11);
                }
            }
        }
        value = value * 10 + (d as u64 - 48);
        i = i + 1;
    }
    assert(c@.take(n as int) =~= c@);
    if value < 4294967295 {
        Some(value as u32)
    } else {
        None
    }
}

/// Powers of ten.
pub open spec fn pow10(k: nat) -> nat
    decreases k,
{
    if k == 0 {
        1
    } else {
        10 * pow10((k - 1) as nat)
    }
}

proof fn lemma_pow10_mono(a: nat, b: nat)
    requires
        a <= b,
    ensures
        pow10(a) <= pow10(b),
    decreases b,
{
    if a < b {
        lemma_pow10_mono(a, (b - 1) as nat);
    }
}

/// A run of `k` digits is worth less than `10^k`.
proof fn lemma_decimal_value_bound(s: Seq<char>)
    requires
        all_digits(s),
    ensures
        decimal_value(s) < pow10(s.len()),
    decreases s.len(),
{
    if s.len() > 0 {
        let p = s.drop_last();
        assert(all_digits(p)) by {
            assert forall|k: int| 0 <= k < p.len() implies is_digit(#[trigger] p[k]) by {
                assert(p[k] == s[k]);
            }
        }
        lemma_decimal_value_bound(p);
        assert(is_digit(s[s.len() - 1]));
        let d = digit_value(s.last());
        assert(decimal_value(p) * 10 + d < pow10(p.len()) * 10) by (nonlinear_arith)
            requires
                decimal_value(p) < pow10(p.len()),
                d < 10,
        ;
    }
}

/// Two keys that denote the same array index are the same key.
pub proof fn lemma_array_index_unique(a: Seq<char>, b: Seq<char>)
    requires
        spec_array_index(a) is Some,
        spec_array_index(a) == spec_array_index(b),
    ensures
        a == b,
{
    lemma_canonical_numeral_unique(a, b);
}

/// The views of a list of borrowed strings.
pub open spec fn key_views(keys: Seq<&String>) -> Seq<Seq<char>> {
    keys.map_values(|k: &String| k@)
}

/// `Object.keys()` ordering for a JSON-derived object: array-index keys
/// (canonical unsigned integers below `2^32 - 1`) ascending first, then the
/// remaining keys in insertion order.
pub fn js_object_keys<'a>(map: &'a serde_json::Map<String, serde_json::Value>) -> (r: Vec<&'a String>)
    ensures
        is_js_key_order(key_views(r@), json_map_keys(*map)),
{
    let keys = map_keys(map);
    let ghost kv = key_views(keys@);
    assert(kv == json_map_keys(*map));
    let mut numeric: Vec<(&'a String, u32)> = Vec::new();
    let mut rest: Vec<&'a String> = Vec::new();
    let mut i: usize = 0;
    assert(kv.take(0) =~= Seq::<Seq<char>>::empty());
    while i < keys.len()
        invariant
            kv == key_views(keys@),
            kv.no_duplicates(),
            i <= keys@.len(),
            numeric@.len() == index_keys(kv.take(i as int)).len(),
            forall|j: int|
                0 <= j < numeric@.len() ==> kv.take(i as int).contains((#[trigger] numeric@[j]).0@)
                    && spec_array_index(numeric@[j].0@) == Some(numeric@[j].1),
            forall|a: int, b: int|
                0 <= a < b < numeric@.len() ==> (#[trigger] numeric@[a]).1 < (
                #[trigger] numeric@[b]).1,
            key_views(rest@) == other_keys(kv.take(i as int)),
        decreases keys@.len() - i,
    {
        let k: &'a String = keys[i];
        let ghost prefix = kv.take(i as int);
        let ghost next = kv.take(i + 1);
        assert(next.drop_last() =~= prefix);
        assert(next.last() == k@);
        assert(kv[i as int] == k@);
        assert forall|x: Seq<char>| prefix.contains(x) implies next.contains(x) by {
            let m = choose|m: int| 0 <= m < prefix.len() && prefix[m] == x;
            assert(next[m] == x);
        }
        assert(next.contains(k@)) by {
            assert(next[i as int] == k@);
        }
        assert(!prefix.contains(k@)) by {
            if prefix.contains(k@) {
                let m = choose|m: int| 0 <= m < prefix.len() && prefix[m] == k@;
                assert(kv[m] == kv[i as int]);
            }
        }
        match as_array_index(k.as_str()) {
            Some(n) => {
                let ghost before = numeric@;
                let mut p: usize = 0;
                while p < numeric.len() && numeric[p].1 < n
                    invariant
                        p <= numeric@.len(),
                        numeric@ == before,
                        forall|q: int| 0 <= q < p ==> (#[trigger] numeric@[q]).1 < n,
                    decreases numeric@.len() - p,
                {
                    p = p + 1;
                }
                proof {
                    if p < numeric@.len() && numeric@[p as int].1 == n {
                        lemma_array_index_unique(numeric@[p as int].0@, k@);
                    }
                }
                numeric.insert(p, (k, n));
                proof {
                    assert forall|a: int, b: int|
                        0 <= a < b < numeric@.len() implies (#[trigger] numeric@[a]).1 < (
                        #[trigger] numeric@[b]).1 by {
                        if a < p && b < p {
                            assert(numeric@[a] == before[a] && numeric@[b] == before[b]);
                        } else if a < p && b == p {
                            assert(numeric@[a] == before[a]);
                        } else if a < p {
                            assert(numeric@[a] == before[a] && numeric@[b] == before[b - 1]);
                        } else if a == p {
                            assert(numeric@[b] == before[b - 1]);
                            assert(before[p as int].1 >= n);
                            if b - 1 > p {
                                assert(before[p as int].1 < before[b - 1].1);
                            }
                        } else {
                            assert(numeric@[a] == before[a - 1] && numeric@[b] == before[b - 1]);
                        }
                    }
                    assert forall|j: int| 0 <= j < numeric@.len() implies next.contains(
                        (#[trigger] numeric@[j]).0@,
                    ) && spec_array_index(numeric@[j].0@) == Some(numeric@[j].1) by {
                        if j < p {
                            assert(numeric@[j] == before[j]);
                        } else if j > p {
                            assert(numeric@[j] == before[j - 1]);
                        }
                    }
                    reveal_with_fuel(Seq::filter, 1);
                    assert(index_keys(next) == index_keys(prefix).push(k@));
                    assert(key_views(rest@) =~= other_keys(next));
                }
            },
            None => {
                let ghost before = rest@;
                rest.push(k);
                proof {
                    reveal_with_fuel(Seq::filter, 1);
                    assert(key_views(rest@) =~= key_views(before).push(k@));
                    assert(other_keys(next) == other_keys(prefix).push(k@));
                    assert(index_keys(next) == index_keys(prefix));
                }
            },
        }
        i = i + 1;
    }
    assert(kv.take(keys@.len() as int) =~= kv);
    let ghost total = kv;
    let mut out: Vec<&'a String> = Vec::new();
    let mut j: usize = 0;
    while j < numeric.len()
        invariant
            j <= numeric@.len(),
            out@.len() == j,
            forall|q: int| 0 <= q < j ==> #[trigger] out@[q] == numeric@[q].0,
        decreases numeric@.len() - j,
    {
        out.push(numeric[j].0);
        j = j + 1;
    }
    let mut m: usize = 0;
    while m < rest.len()
        invariant
            m <= rest@.len(),
            out@.len() == numeric@.len() + m,
            forall|q: int| 0 <= q < numeric@.len() ==> #[trigger] out@[q] == numeric@[q].0,
            forall|q: int| 0 <= q < m ==> #[trigger] out@[numeric@.len() + q] == rest@[q],
        decreases rest@.len() - m,
    {
        out.push(rest[m]);
        m = m + 1;
    }
    proof {
        let r = key_views(out@);
        let n = numeric@.len();
        assert(r.skip(n as int) =~= key_views(rest@)) by {
            assert forall|q: int| 0 <= q < rest@.len() implies r.skip(n as int)[q] == key_views(
                rest@,
            )[q] by {
                assert(out@[n + q] == rest@[q]);
            }
        }
        assert forall|q: int| 0 <= q < n implies #[trigger] r[q] == numeric@[q].0@ by {
            assert(out@[q] == numeric@[q].0);
        }
        assert forall|a: int, b: int| 0 <= a < b < n implies spec_array_index(#[trigger] r[a])->0
            < spec_array_index(#[trigger] r[b])->0 by {
            assert(r[a] == numeric@[a].0@ && r[b] == numeric@[b].0@);
            assert(numeric@[a].1 < numeric@[b].1);
        }
    }
    out
}

/// No `/` occurs in `seg`.
pub open spec fn slash_free(seg: Seq<char>) -> bool {
    forall|k: int| 0 <= k < seg.len() ==> #[trigger] seg[k] != '/'
}

proof fn lemma_split_slash_pieces(s: Seq<char>)
    ensures
        split_slash(s).len() >= 1,
        forall|i: int| 0 <= i < split_slash(s).len() ==> slash_free(#[trigger] split_slash(s)[i]),
    decreases s.len(),
{
    if s.len() > 0 {
        let prev = split_slash(s.drop_last());
        lemma_split_slash_pieces(s.drop_last());
        let cur = split_slash(s);
        assert forall|i: int| 0 <= i < cur.len() implies slash_free(#[trigger] cur[i]) by {
            if s.last() == '/' {
                if i < prev.len() {
                    assert(cur[i] == prev[i]);
                } else {
                    assert(cur[i] =~= seq![]);
                }
            } else if i < prev.len() - 1 {
                assert(cur[i] == prev[i]);
            } else {
                let last = prev.last().push(s.last());
                assert(cur[i] == last);
                assert forall|k: int| 0 <= k < last.len() implies #[trigger] last[k] != '/' by {
                    if k < prev.last().len() {
                        assert(last[k] == prev.last()[k]);
                        assert(slash_free(prev[prev.len() - 1]));
                    }
                }
            }
        }
    }
}

proof fn lemma_resolve_segments(segs: Seq<Seq<char>>, absolute: bool)
    requires
        forall|i: int| 0 <= i < segs.len() ==> slash_free(#[trigger] segs[i]),
    ensures
        forall|i: int|
            0 <= i < resolve(segs, absolute).len() ==> (#[trigger] resolve(segs, absolute)[i]).len()
                > 0 && slash_free(resolve(segs, absolute)[i]),
    decreases segs.len(),
{
    if segs.len() > 0 {
        let prev = resolve(segs.drop_last(), absolute);
        assert forall|i: int| 0 <= i < segs.drop_last().len() implies slash_free(
            #[trigger] segs.drop_last()[i],
        ) by {
            assert(segs.drop_last()[i] == segs[i]);
        }
        lemma_resolve_segments(segs.drop_last(), absolute);
        let cur = resolve(segs, absolute);
        let seg = segs.last();
        assert(slash_free(segs[segs.len() - 1]));
        assert forall|i: int| 0 <= i < cur.len() implies (#[trigger] cur[i]).len() > 0
            && slash_free(cur[i]) by {
            if i < prev.len() {
                assert(cur[i] == prev[i]);
            } else {
                if seg == dot_dot() {
                    assert(cur[i] == dot_dot());
                    assert(slash_free(dot_dot()));
                } else {
                    assert(cur[i] == seg);
                }
            }
        }
    }
}

proof fn lemma_join_slash_head(segs: Seq<Seq<char>>)
    requires
        segs.len() > 0,
        segs[0].len() > 0,
    ensures
        join_slash(segs).len() > 0,
        join_slash(segs)[0] == segs[0][0],
    decreases segs.len(),
{
    if segs.len() > 1 {
        assert(segs.drop_last()[0] == segs[0]);
        lemma_join_slash_head(segs.drop_last());
    }
}

/// The non-empty parts, joined: empty exactly when every part is empty.
proof fn lemma_join_nonempty_empty(parts: Seq<Seq<char>>)
    ensures
        join_nonempty(parts).len() == 0 <==> forall|i: int| 0 <= i < parts.len() ==> (
        #[trigger] parts[i]).len() == 0,
    decreases parts.len(),
{
    if parts.len() > 0 {
        let prev = parts.drop_last();
        lemma_join_nonempty_empty(prev);
        assert forall|i: int| 0 <= i < prev.len() implies #[trigger] prev[i] == parts[i] by {}
        if parts.last().len() == 0 {
            assert((forall|i: int| 0 <= i < parts.len() ==> (#[trigger] parts[i]).len() == 0) <==> (
            forall|i: int| 0 <= i < prev.len() ==> (#[trigger] prev[i]).len() == 0)) by {
                if forall|i: int| 0 <= i < prev.len() ==> (#[trigger] prev[i]).len() == 0 {
                    assert forall|i: int| 0 <= i < parts.len() implies (#[trigger] parts[i]).len()
                        == 0 by {
                        if i < prev.len() {
                            assert(prev[i] == parts[i]);
                        }
                    }
                }
            }
        } else {
            assert(parts[parts.len() - 1].len() != 0);
        }
    }
}

/// What Node's `path.join` promises of its shape, for any parts: the result
/// is never empty; it is absolute exactly when the joined path is (a leading
/// slash is preserved, and none appears otherwise); a trailing slash is
/// preserved; and joining nothing, or only empty parts, gives `.`.
pub proof fn lemma_node_path_join_shape(parts: Seq<Seq<char>>)
    ensures
        ({
            let joined = join_nonempty(parts);
            let r = spec_node_path_join(parts);
            &&& r.len() > 0
            &&& (r[0] == '/' <==> joined.len() > 0 && joined[0] == '/')
            &&& (joined.len() > 0 && joined.last() == '/' ==> r.last() == '/')
            &&& ((forall|i: int| 0 <= i < parts.len() ==> (#[trigger] parts[i]).len() == 0)
                ==> r == seq!['.'])
        }),
{
    let joined = join_nonempty(parts);
    lemma_join_nonempty_empty(parts);
    if joined.len() > 0 {
        let absolute = joined[0] == '/';
        lemma_split_slash_pieces(joined);
        lemma_resolve_segments(split_slash(joined), absolute);
        let segs = resolve(split_slash(joined), absolute);
        if segs.len() > 0 {
            assert(segs[0].len() > 0 && slash_free(segs[0]));
            lemma_join_slash_head(segs);
            assert(join_slash(segs)[0] != '/');
        }
    }
}

proof fn lemma_filter_parts(keys: Seq<Seq<char>>)
    ensures
        index_keys(keys).len() + other_keys(keys).len() == keys.len(),
        forall|x: Seq<char>| index_keys(keys).contains(x) <==> keys.contains(x) && is_index_key(x),
        forall|x: Seq<char>| other_keys(keys).contains(x) <==> keys.contains(x) && !is_index_key(x),
        keys.no_duplicates() ==> index_keys(keys).no_duplicates() && other_keys(
            keys,
        ).no_duplicates(),
    decreases keys.len(),
{
    reveal_with_fuel(Seq::filter, 1);
    if keys.len() > 0 {
        let prev = keys.drop_last();
        let last = keys.last();
        lemma_filter_parts(prev);
        assert(keys =~= prev.push(last));
        assert forall|x: Seq<char>| keys.contains(x) <==> prev.contains(x) || x == last by {
            if keys.contains(x) {
                let i = choose|i: int| 0 <= i < keys.len() && keys[i] == x;
                if i < prev.len() {
                    assert(prev[i] == x);
                }
            }
            if prev.contains(x) {
                let i = choose|i: int| 0 <= i < prev.len() && prev[i] == x;
                assert(keys[i] == x);
            }
            if x == last {
                assert(keys[keys.len() - 1] == x);
            }
        }
        if keys.no_duplicates() {
            assert(prev.no_duplicates()) by {
                assert forall|i: int, j: int|
                    0 <= i < prev.len() && 0 <= j < prev.len() && i != j implies prev[i]
                    != prev[j] by {
                    assert(prev[i] == keys[i] && prev[j] == keys[j]);
                }
            }
            assert(!prev.contains(last)) by {
                if prev.contains(last) {
                    let i = choose|i: int| 0 <= i < prev.len() && prev[i] == last;
                    assert(keys[i] == keys[keys.len() - 1]);
                }
            }
            lemma_push_no_duplicates(index_keys(prev), last);
            lemma_push_no_duplicates(other_keys(prev), last);
        }
        assert forall|x: Seq<char>| #[trigger] index_keys(prev).push(last).contains(x) <==> index_keys(
            prev,
        ).contains(x) || x == last by {
            lemma_push_contains(index_keys(prev), last, x);
        }
        assert forall|x: Seq<char>| #[trigger] other_keys(prev).push(last).contains(x) <==> other_keys(
            prev,
        ).contains(x) || x == last by {
            lemma_push_contains(other_keys(prev), last, x);
        }
    }
}

proof fn lemma_push_contains(s: Seq<Seq<char>>, e: Seq<char>, x: Seq<char>)
    ensures
        s.push(e).contains(x) <==> s.contains(x) || x == e,
{
    if s.push(e).contains(x) {
        let i = choose|i: int| 0 <= i < s.push(e).len() && s.push(e)[i] == x;
        if i < s.len() {
            assert(s[i] == x);
        }
    }
    if s.contains(x) {
        let i = choose|i: int| 0 <= i < s.len() && s[i] == x;
        assert(s.push(e)[i] == x);
    }
    if x == e {
        assert(s.push(e)[s.len() as int] == x);
    }
}

proof fn lemma_push_no_duplicates(s: Seq<Seq<char>>, e: Seq<char>)
    requires
        s.no_duplicates(),
        !s.contains(e),
    ensures
        s.push(e).no_duplicates(),
{
    assert forall|i: int, j: int|
        0 <= i < s.push(e).len() && 0 <= j < s.push(e).len() && i != j implies s.push(e)[i]
        != s.push(e)[j] by {
        if i < s.len() && j < s.len() {
        } else if i < s.len() {
            assert(s.contains(s[i]));
        } else {
            assert(s.contains(s[j]));
        }
    }
}

/// `Object.keys()` lists every key of the object exactly once: the order
/// above is a reordering of the keys.
pub proof fn lemma_js_key_order_lists_each_key_once(r: Seq<Seq<char>>, keys: Seq<Seq<char>>)
    requires
        is_js_key_order(r, keys),
        keys.no_duplicates(),
    ensures
        r.len() == keys.len(),
        r.no_duplicates(),
        forall|x: Seq<char>| r.contains(x) <==> keys.contains(x),
{
    lemma_filter_parts(keys);
    let n = index_keys(keys).len() as int;
    let head = r.take(n);
    let tail = r.skip(n);
    assert(tail == other_keys(keys));
    assert(head.no_duplicates()) by {
        assert forall|a: int, b: int|
            0 <= a < head.len() && 0 <= b < head.len() && a != b implies head[a] != head[b] by {
            assert(head[a] == r[a] && head[b] == r[b]);
            if a < b {
                assert(spec_array_index(r[a])->0 < spec_array_index(r[b])->0);
            } else {
                assert(spec_array_index(r[b])->0 < spec_array_index(r[a])->0);
            }
        }
    }
    assert forall|j: int| 0 <= j < head.len() implies index_keys(keys).contains(#[trigger] head[j]) by {
        assert(head[j] == r[j]);
        assert(keys.contains(r[j]) && is_index_key(r[j]));
    }
    // The head is `n` distinct index keys, and there are `n` of them: it holds
    // them all.
    assert(head.to_set() =~= index_keys(keys).to_set()) by {
        head.unique_seq_to_set();
        index_keys(keys).unique_seq_to_set();
        assert(head.to_set().subset_of(index_keys(keys).to_set()));
        vstd::set_lib::lemma_subset_equality(head.to_set(), index_keys(keys).to_set());
    }
    assert(r =~= head + tail);
    assert forall|x: Seq<char>| r.contains(x) <==> keys.contains(x) by {
        if r.contains(x) {
            let i = choose|i: int| 0 <= i < r.len() && r[i] == x;
            if i < n {
                assert(head[i] == x);
                assert(head.to_set().contains(x));
            } else {
                assert(tail[i - n] == x);
                assert(tail.contains(x));
            }
        }
        if keys.contains(x) {
            if is_index_key(x) {
                assert(index_keys(keys).to_set().contains(x));
                assert(head.to_set().contains(x));
                let i = choose|i: int| 0 <= i < head.len() && head[i] == x;
                assert(r[i] == x);
            } else {
                assert(other_keys(keys).contains(x));
                let i = choose|i: int| 0 <= i < tail.len() && tail[i] == x;
                assert(r[n + i] == x);
            }
        }
    }
    assert(r.no_duplicates()) by {
        assert forall|a: int, b: int|
            0 <= a < r.len() && 0 <= b < r.len() && a != b implies r[a] != r[b] by {
            if a < n && b < n {
                assert(head[a] == r[a] && head[b] == r[b]);
            } else if a >= n && b >= n {
                assert(tail[a - n] == r[a] && tail[b - n] == r[b]);
            } else if a < n {
                assert(is_index_key(r[a]));
                assert(tail[b - n] == r[b]);
                assert(tail.contains(r[b]));
            } else {
                assert(is_index_key(r[b]));
                assert(tail[a - n] == r[a]);
                assert(tail.contains(r[a]));
            }
        }
    }
}

/// A list of segments that normalization leaves as it is: no empty, `.` or
/// `/`-holding segment, and `..` only in a leading run, and never on an
/// absolute path.
pub open spec fn is_normal(segs: Seq<Seq<char>>, absolute: bool) -> bool {
    forall|i: int|
        0 <= i < segs.len() ==> {
            &&& (#[trigger] segs[i]).len() > 0
            &&& slash_free(segs[i])
            &&& segs[i] != dot()
            &&& (segs[i] == dot_dot() ==> !absolute && forall|j: int|
                0 <= j < i ==> #[trigger] segs[j] == dot_dot())
        }
}

proof fn lemma_resolve_normal(segs: Seq<Seq<char>>, absolute: bool)
    requires
        forall|i: int| 0 <= i < segs.len() ==> slash_free(#[trigger] segs[i]),
    ensures
        is_normal(resolve(segs, absolute), absolute),
    decreases segs.len(),
{
    if segs.len() > 0 {
        let init = segs.drop_last();
        assert forall|i: int| 0 <= i < init.len() implies slash_free(#[trigger] init[i]) by {
            assert(init[i] == segs[i]);
        }
        lemma_resolve_normal(init, absolute);
        let kept = resolve(init, absolute);
        let seg = segs.last();
        assert(slash_free(segs[segs.len() - 1]));
        let cur = resolve(segs, absolute);
        assert(slash_free(dot_dot())) by {
            assert forall|k: int| 0 <= k < dot_dot().len() implies #[trigger] dot_dot()[k] != '/' by {}
        }
        if seg.len() == 0 || seg == dot() {
        } else if seg == dot_dot() {
            if kept.len() > 0 && kept.last() != dot_dot() {
                assert forall|i: int| 0 <= i < cur.len() implies #[trigger] cur[i] == kept[i] by {}
            } else if !absolute {
                assert forall|i: int| 0 <= i < kept.len() implies #[trigger] kept[i] == dot_dot() by {
                    let l = kept.len() - 1;
                    assert(kept[l] == dot_dot());
                    if i < l {
                        assert(kept[l] == dot_dot() ==> forall|j: int|
                            0 <= j < l ==> #[trigger] kept[j] == dot_dot());
                    }
                }
                assert forall|i: int| 0 <= i < cur.len() implies (#[trigger] cur[i]) == (if i
                    < kept.len() {
                    kept[i]
                } else {
                    dot_dot()
                }) by {}
            }
        } else {
            assert forall|i: int| 0 <= i < cur.len() implies (#[trigger] cur[i]) == (if i
                < kept.len() {
                kept[i]
            } else {
                seg
            }) by {}
        }
    }
}

proof fn lemma_resolve_of_normal(segs: Seq<Seq<char>>, absolute: bool)
    requires
        is_normal(segs, absolute),
    ensures
        resolve(segs, absolute) == segs,
    decreases segs.len(),
{
    if segs.len() > 0 {
        let init = segs.drop_last();
        assert forall|i: int| 0 <= i < init.len() implies #[trigger] init[i] == segs[i] by {}
        assert(is_normal(init, absolute)) by {
            assert forall|i: int| 0 <= i < init.len() implies {
                &&& (#[trigger] init[i]).len() > 0
                &&& slash_free(init[i])
                &&& init[i] != dot()
                &&& (init[i] == dot_dot() ==> !absolute && forall|j: int|
                    0 <= j < i ==> #[trigger] init[j] == dot_dot())
            } by {
                assert(segs[i] == init[i]);
                if init[i] == dot_dot() {
                    assert forall|j: int| 0 <= j < i implies #[trigger] init[j] == dot_dot() by {
                        assert(segs[j] == init[j]);
                    }
                }
            }
        }
        lemma_resolve_of_normal(init, absolute);
        let last = segs[segs.len() - 1];
        assert(last.len() > 0 && last != dot());
        if last == dot_dot() {
            if init.len() > 0 {
                assert(segs[init.len() - 1] == dot_dot());
            }
        }
        assert(segs =~= init.push(last));
    }
}

proof fn lemma_resolve_prefix_empty(segs: Seq<Seq<char>>, absolute: bool)
    ensures
        resolve(seq![seq![]] + segs, absolute) == resolve(segs, absolute),
    decreases segs.len(),
{
    let e: Seq<Seq<char>> = seq![seq![]];
    if segs.len() == 0 {
        assert(e + segs =~= e);
        assert(e.drop_last() =~= Seq::<Seq<char>>::empty());
        assert(resolve(Seq::<Seq<char>>::empty(), absolute) =~= Seq::<Seq<char>>::empty());
        assert(e.last().len() == 0);
        assert(resolve(e, absolute) == resolve_step(
            resolve(e.drop_last(), absolute),
            e.last(),
            absolute,
        ));
    } else {
        lemma_resolve_prefix_empty(segs.drop_last(), absolute);
        assert((e + segs).drop_last() =~= e + segs.drop_last());
        assert((e + segs).last() == segs.last());
    }
}

proof fn lemma_resolve_suffix_empty(segs: Seq<Seq<char>>, absolute: bool)
    ensures
        resolve(segs.push(seq![]), absolute) == resolve(segs, absolute),
{
    assert(segs.push(seq![]).drop_last() =~= segs);
}

/// Splitting at a `/` splits the two sides apart.
proof fn lemma_split_slash_concat(a: Seq<char>, b: Seq<char>)
    ensures
        split_slash(a + seq!['/'] + b) == split_slash(a) + split_slash(b),
    decreases b.len(),
{
    lemma_split_slash_pieces(a);
    let s = a + seq!['/'] + b;
    if b.len() == 0 {
        assert(s =~= a.push('/'));
        assert(s.drop_last() =~= a);
    } else {
        lemma_split_slash_concat(a, b.drop_last());
        lemma_split_slash_pieces(b.drop_last());
        assert(s.drop_last() =~= a + seq!['/'] + b.drop_last());
        assert(s.last() == b.last());
        let pa = split_slash(a);
        let pb = split_slash(b.drop_last());
        if b.last() == '/' {
            assert((pa + pb).push(seq![]) =~= pa + pb.push(seq![]));
        } else {
            assert((pa + pb).update((pa + pb).len() - 1, (pa + pb).last().push(b.last())) =~= pa
                + pb.update(pb.len() - 1, pb.last().push(b.last())));
        }
    }
}

proof fn lemma_split_slash_free(x: Seq<char>)
    requires
        slash_free(x),
    ensures
        split_slash(x) == seq![x],
    decreases x.len(),
{
    if x.len() == 0 {
        assert(x =~= Seq::<char>::empty());
        assert(split_slash(x) =~= seq![x]);
    } else {
        let init = x.drop_last();
        assert(slash_free(init)) by {
            assert forall|k: int| 0 <= k < init.len() implies #[trigger] init[k] != '/' by {
                assert(init[k] == x[k]);
            }
        }
        lemma_split_slash_free(init);
        assert(x[x.len() - 1] != '/');
        assert(init.push(x.last()) =~= x);
        assert(split_slash(x) =~= seq![x]);
    }
}

proof fn lemma_split_join_slash(segs: Seq<Seq<char>>)
    requires
        segs.len() > 0,
        forall|i: int| 0 <= i < segs.len() ==> slash_free(#[trigger] segs[i]),
    ensures
        split_slash(join_slash(segs)) == segs,
    decreases segs.len(),
{
    if segs.len() == 1 {
        assert(slash_free(segs[0]));
        lemma_split_slash_free(segs[0]);
        assert(seq![segs[0]] =~= segs);
    } else {
        let init = segs.drop_last();
        assert forall|i: int| 0 <= i < init.len() implies slash_free(#[trigger] init[i]) by {
            assert(init[i] == segs[i]);
        }
        lemma_split_join_slash(init);
        assert(slash_free(segs[segs.len() - 1]));
        lemma_split_slash_free(segs.last());
        lemma_split_slash_concat(join_slash(init), segs.last());
        assert(init + seq![segs.last()] =~= segs);
    }
}

proof fn lemma_join_slash_last(segs: Seq<Seq<char>>)
    requires
        segs.len() > 0,
        segs.last().len() > 0,
    ensures
        join_slash(segs).len() > 0,
        join_slash(segs).last() == segs.last().last(),
{
    if segs.len() == 1 {
        assert(segs[0] == segs.last());
    }
}

/// A path segment with no special meaning: not empty, not `.` or `..`, and
/// holding no `/`.
pub open spec fn is_plain_segment(seg: Seq<char>) -> bool {
    &&& seg.len() > 0
    &&& slash_free(seg)
    &&& seg != dot()
    &&& seg != dot_dot()
}

/// `..` removes exactly one segment, the one before it: joining a relative
/// path of plain segments `s1/.../sn` with `..` gives `s1/.../s(n-1)`, and
/// `.` when there was only one segment.
pub proof fn lemma_node_path_join_parent(segs: Seq<Seq<char>>)
    requires
        segs.len() > 0,
        forall|i: int| 0 <= i < segs.len() ==> is_plain_segment(#[trigger] segs[i]),
    ensures
        spec_node_path_join(seq![join_slash(segs), dot_dot()]) == (if segs.len() == 1 {
            seq!['.']
        } else {
            join_slash(segs.drop_last())
        }),
{
    let j = join_slash(segs);
    let dd = dot_dot();
    let parts = seq![j, dd];
    assert(is_plain_segment(segs[0]));
    assert(is_plain_segment(segs[segs.len() - 1]));
    lemma_join_slash_head(segs);
    lemma_join_slash_last(segs);
    assert(j[0] != '/');
    assert(j.last() != '/');
    // The two parts, joined.
    assert(parts.drop_last() =~= seq![j]);
    assert(seq![j].drop_last() =~= Seq::<Seq<char>>::empty());
    assert(join_nonempty(Seq::<Seq<char>>::empty()) =~= Seq::<char>::empty());
    assert(seq![j].last() == j);
    assert(join_nonempty(seq![j]) == j);
    assert(parts.last() == dd);
    let joined = j + seq!['/'] + dd;
    assert(join_nonempty(parts) == joined);
    assert(joined[0] == j[0]);
    assert(joined.last() == '.');
    // Its segments: those of the path, then `..`.
    assert forall|i: int| 0 <= i < segs.len() implies slash_free(#[trigger] segs[i]) by {
        assert(is_plain_segment(segs[i]));
    }
    lemma_split_join_slash(segs);
    assert(slash_free(dd)) by {
        assert forall|k: int| 0 <= k < dd.len() implies #[trigger] dd[k] != '/' by {}
    }
    lemma_split_slash_free(dd);
    lemma_split_slash_concat(j, dd);
    assert(split_slash(joined) == segs + seq![dd]);
    assert(segs + seq![dd] =~= segs.push(dd));
    // The path is already normal, so only `..` changes it.
    assert(is_normal(segs, false)) by {
        assert forall|i: int| 0 <= i < segs.len() implies {
            &&& (#[trigger] segs[i]).len() > 0
            &&& slash_free(segs[i])
            &&& segs[i] != dot()
            &&& (segs[i] == dot_dot() ==> !false && forall|k: int|
                0 <= k < i ==> #[trigger] segs[k] == dot_dot())
        } by {
            assert(is_plain_segment(segs[i]));
        }
    }
    lemma_resolve_of_normal(segs, false);
    assert(segs.push(dd).drop_last() =~= segs);
    assert(resolve(segs.push(dd), false) == segs.drop_last());
    if segs.len() > 1 {
        assert(Seq::<char>::empty() + join_slash(segs.drop_last()) + Seq::<char>::empty()
            =~= join_slash(segs.drop_last()));
    }
}

/// The joined segments of `join(s1/.../sn, mid, g)` for a relative path of
/// plain segments, a `/`-free `mid` and a plain `g`: the path's segments,
/// then `mid`, then `g`, resolved on a relative path.
proof fn lemma_join_three(segs: Seq<Seq<char>>, mid: Seq<char>, g: Seq<char>)
    requires
        segs.len() > 0,
        forall|i: int| 0 <= i < segs.len() ==> is_plain_segment(#[trigger] segs[i]),
        mid.len() > 0,
        slash_free(mid),
        is_plain_segment(g),
    ensures
        ({
            let kept = resolve_step(resolve_step(segs, mid, false), g, false);
            kept.len() > 0 ==> spec_node_path_join(seq![join_slash(segs), mid, g]) == join_slash(
                kept,
            )
        }),
{
    let j = join_slash(segs);
    let parts = seq![j, mid, g];
    assert(is_plain_segment(segs[0]));
    assert(is_plain_segment(segs[segs.len() - 1]));
    lemma_join_slash_head(segs);
    lemma_join_slash_last(segs);
    assert(parts.drop_last() =~= seq![j, mid]);
    assert(seq![j, mid].drop_last() =~= seq![j]);
    assert(seq![j].drop_last() =~= Seq::<Seq<char>>::empty());
    assert(join_nonempty(Seq::<Seq<char>>::empty()) =~= Seq::<char>::empty());
    assert(seq![j].last() == j);
    assert(join_nonempty(seq![j]) == j);
    assert(seq![j, mid].last() == mid);
    let jm = j + seq!['/'] + mid;
    assert(join_nonempty(seq![j, mid]) == jm);
    assert(parts.last() == g);
    let joined = jm + seq!['/'] + g;
    assert(join_nonempty(parts) == joined);
    assert(joined[0] == j[0]);
    assert(joined.last() == g.last());
    assert(g.last() != '/') by {
        assert(g[g.len() - 1] != '/');
    }
    assert forall|i: int| 0 <= i < segs.len() implies slash_free(#[trigger] segs[i]) by {
        assert(is_plain_segment(segs[i]));
    }
    lemma_split_join_slash(segs);
    lemma_split_slash_free(mid);
    lemma_split_slash_free(g);
    lemma_split_slash_concat(j, mid);
    lemma_split_slash_concat(jm, g);
    let all = segs.push(mid).push(g);
    assert(split_slash(joined) =~= all);
    assert(is_normal(segs, false)) by {
        assert forall|i: int| 0 <= i < segs.len() implies {
            &&& (#[trigger] segs[i]).len() > 0
            &&& slash_free(segs[i])
            &&& segs[i] != dot()
            &&& (segs[i] == dot_dot() ==> !false && forall|k: int|
                0 <= k < i ==> #[trigger] segs[k] == dot_dot())
        } by {
            assert(is_plain_segment(segs[i]));
        }
    }
    lemma_resolve_of_normal(segs, false);
    assert(all.drop_last() =~= segs.push(mid));
    assert(segs.push(mid).drop_last() =~= segs);
    let kept = resolve_step(resolve_step(segs, mid, false), g, false);
    assert(all.last() == g);
    assert(segs.push(mid).last() == mid);
    assert(resolve(segs.push(mid), false) == resolve_step(segs, mid, false));
    assert(resolve(all, false) == kept);
    assert(Seq::<char>::empty() + join_slash(kept) + Seq::<char>::empty() =~= join_slash(kept));
}

/// A segment after `..` lands where the removed one was: joining a relative
/// path of plain segments `s1/.../sn`, `..` and a plain segment `g` gives
/// `s1/.../s(n-1)/g` (`join("a", "..", "b")` is `b`).
pub proof fn lemma_node_path_join_parent_then(segs: Seq<Seq<char>>, g: Seq<char>)
    requires
        segs.len() > 0,
        forall|i: int| 0 <= i < segs.len() ==> is_plain_segment(#[trigger] segs[i]),
        is_plain_segment(g),
    ensures
        spec_node_path_join(seq![join_slash(segs), dot_dot(), g]) == join_slash(
            segs.drop_last().push(g),
        ),
{
    let dd = dot_dot();
    assert(slash_free(dd)) by {
        assert forall|k: int| 0 <= k < dd.len() implies #[trigger] dd[k] != '/' by {}
    }
    assert(is_plain_segment(segs[segs.len() - 1]));
    lemma_join_three(segs, dd, g);
}

/// `.` names the directory it stands in: joining a relative path of plain
/// segments `s1/.../sn`, `.` and a plain segment `g` gives `s1/.../sn/g`.
pub proof fn lemma_node_path_join_dot_then(segs: Seq<Seq<char>>, g: Seq<char>)
    requires
        segs.len() > 0,
        forall|i: int| 0 <= i < segs.len() ==> is_plain_segment(#[trigger] segs[i]),
        is_plain_segment(g),
    ensures
        spec_node_path_join(seq![join_slash(segs), dot(), g]) == join_slash(segs.push(g)),
{
    let d = dot();
    assert(slash_free(d)) by {
        assert forall|k: int| 0 <= k < d.len() implies #[trigger] d[k] != '/' by {}
    }
    lemma_join_three(segs, d, g);
}

/// Joining a relative path of plain segments `s1/.../sn` with plain segments
/// `m` and `g` appends them: `s1/.../sn/m/g`.
pub proof fn lemma_node_path_join_appends(segs: Seq<Seq<char>>, m: Seq<char>, g: Seq<char>)
    requires
        segs.len() > 0,
        forall|i: int| 0 <= i < segs.len() ==> is_plain_segment(#[trigger] segs[i]),
        is_plain_segment(m),
        is_plain_segment(g),
    ensures
        spec_node_path_join(seq![join_slash(segs), m, g]) == join_slash(segs.push(m).push(g)),
{
    lemma_join_three(segs, m, g);
}

/// Joining the result of a join again changes nothing: the output of Node's
/// `path.join` is already normalized.
pub proof fn lemma_node_path_join_idempotent(parts: Seq<Seq<char>>)
    ensures
        spec_node_path_join(seq![spec_node_path_join(parts)]) == spec_node_path_join(parts),
{
    let r = spec_node_path_join(parts);
    let joined = join_nonempty(parts);
    lemma_node_path_join_shape(parts);
    let once: Seq<Seq<char>> = seq![r];
    assert(once.drop_last() =~= Seq::<Seq<char>>::empty());
    assert(join_nonempty(Seq::<Seq<char>>::empty()) =~= Seq::<char>::empty());
    assert(once.last() == r);
    assert(join_nonempty(once) == r);
    let e: Seq<char> = seq![];
    if joined.len() == 0 || resolve(split_slash(joined), joined[0] == '/').len() == 0 {
        // `r` is `.`, `./` or `/`.
        let dot_slash: Seq<char> = seq!['.', '/'];
        let slash: Seq<char> = seq!['/'];
        let dot_only: Seq<char> = seq!['.'];
        let none: Seq<Seq<char>> = Seq::empty();
        assert(resolve(none, true) =~= none);
        assert(resolve(none, false) =~= none);
        if r == dot_only {
            assert(dot_only.drop_last() =~= e);
            assert(split_slash(e) =~= seq![e]);
            assert(split_slash(dot_only) =~= seq![dot()]);
            let p: Seq<Seq<char>> = seq![dot()];
            assert(p.drop_last() =~= none);
            assert(resolve(p, false) =~= none);
        } else if r == dot_slash {
            assert(dot_slash.drop_last() =~= dot_only);
            assert(dot_only.drop_last() =~= e);
            assert(split_slash(e) =~= seq![e]);
            assert(split_slash(dot_only) =~= seq![dot()]);
            assert(split_slash(dot_slash) =~= seq![dot(), e]);
            let p1: Seq<Seq<char>> = seq![dot()];
            let p: Seq<Seq<char>> = seq![dot(), e];
            assert(p1.drop_last() =~= none);
            assert(p.drop_last() =~= p1);
            assert(resolve(p1, false) =~= none);
            assert(resolve(p, false) =~= none);
        } else {
            assert(r == slash);
            assert(slash.drop_last() =~= e);
            assert(split_slash(e) =~= seq![e]);
            assert(split_slash(slash) =~= seq![e, e]);
            let p1: Seq<Seq<char>> = seq![e];
            let p: Seq<Seq<char>> = seq![e, e];
            assert(p1.drop_last() =~= none);
            assert(p.drop_last() =~= p1);
            assert(resolve(p1, true) =~= none);
            assert(resolve(p, true) =~= none);
        }
        assert(spec_node_path_join(once) == r);
    } else {
        let absolute = joined[0] == '/';
        let trailing = joined.last() == '/';
        lemma_split_slash_pieces(joined);
        let segs = resolve(split_slash(joined), absolute);
        lemma_resolve_normal(split_slash(joined), absolute);
        let body = join_slash(segs);
        assert(segs[0].len() > 0 && slash_free(segs[0]));
        assert(segs[segs.len() - 1].len() > 0 && slash_free(segs[segs.len() - 1]));
        lemma_join_slash_last(segs);
        assert forall|i: int| 0 <= i < segs.len() implies slash_free(#[trigger] segs[i]) by {}
        lemma_split_join_slash(segs);
        assert(body.last() != '/');
        let lead: Seq<char> = if absolute { seq!['/'] } else { seq![] };
        let trail: Seq<char> = if trailing { seq!['/'] } else { seq![] };
        assert(r == lead + body + trail);
        assert(r.last() == '/' <==> trailing);
        // How `r` splits: the segments, with an empty piece before a leading
        // slash and after a trailing one.
        let pieces = split_slash(r);
        let e_piece: Seq<Seq<char>> = seq![e];
        if absolute && trailing {
            assert(r =~= e + seq!['/'] + (body + seq!['/'] + e));
            lemma_split_slash_concat(e, body + seq!['/'] + e);
            lemma_split_slash_concat(body, e);
            assert(split_slash(e) =~= e_piece);
            assert(pieces =~= e_piece + segs.push(e));
            lemma_resolve_prefix_empty(segs.push(e), absolute);
            lemma_resolve_suffix_empty(segs, absolute);
        } else if absolute {
            assert(r =~= e + seq!['/'] + body);
            lemma_split_slash_concat(e, body);
            assert(split_slash(e) =~= e_piece);
            assert(pieces =~= e_piece + segs);
            lemma_resolve_prefix_empty(segs, absolute);
        } else if trailing {
            assert(r =~= body + seq!['/'] + e);
            lemma_split_slash_concat(body, e);
            assert(split_slash(e) =~= e_piece);
            assert(pieces =~= segs.push(e));
            lemma_resolve_suffix_empty(segs, absolute);
        } else {
            assert(r =~= body);
        }
        lemma_resolve_of_normal(segs, absolute);
        assert(resolve(pieces, absolute) == segs);
        assert(r[0] == '/' <==> absolute);
        assert(spec_node_path_join(once) == r);
    }
}

/// The segments of a joined path are in normal form: no empty, `.` or
/// `/`-holding segment remains, and `..` survives only in a leading run of a
/// relative path; the result is those segments joined with `/`, between the
/// preserved leading and trailing slash.
pub proof fn lemma_node_path_join_normal_form(parts: Seq<Seq<char>>)
    ensures
        ({
            let joined = join_nonempty(parts);
            let absolute = joined.len() > 0 && joined[0] == '/';
            let segs = resolve(split_slash(joined), absolute);
            &&& is_normal(segs, absolute)
            &&& joined.len() > 0 && segs.len() > 0 ==> spec_node_path_join(parts) == (if absolute {
                seq!['/']
            } else {
                seq![]
            }) + join_slash(segs) + (if joined.last() == '/' {
                seq!['/']
            } else {
                seq![]
            })
        }),
{
    let joined = join_nonempty(parts);
    let absolute = joined.len() > 0 && joined[0] == '/';
    lemma_split_slash_pieces(joined);
    lemma_resolve_normal(split_slash(joined), absolute);
}

} // verus!
