//! Promises of the text helpers and the registry.
#![allow(unused_imports)]

use crate::registry::Registry;
use crate::text;
use crate::text::{decimal, joined, same_text, split_last_dot, strip_prefix, trim};
use vstd::prelude::*;

verus! {

/// The number that a text of decimal digits spells.
pub open spec fn spelled_number(s: Seq<char>) -> int
    decreases s.len(),
{
    if s.len() == 0 {
        0
    } else {
        spelled_number(s.drop_last()) * 10 + (s.last() as int - '0' as int)
    }
}

/// Whether `s` spells `n` in decimal, in digits alone and without leading zeros.
pub open spec fn is_decimal(s: Seq<char>, n: int) -> bool {
    &&& spelled_number(s) == n
    &&& s.len() > 0
    &&& forall|i: int| 0 <= i < s.len() ==> '0' <= #[trigger] s[i] && s[i] <= '9'
    &&& s.len() > 1 ==> s[0] != '0'
}

/// Whether every character is white space.
pub open spec fn is_blank(s: Seq<char>) -> bool {
    forall|i: int| 0 <= i < s.len() ==> text::is_white_space(#[trigger] s[i])
}

/// Whether the text does not begin or end with white space.
pub open spec fn is_tight(s: Seq<char>) -> bool {
    s.len() > 0 ==> !text::is_white_space(s[0]) && !text::is_white_space(s.last())
}

pub(crate) proof fn lemma_decimal_text(n: nat)
    ensures
        is_decimal(text::decimal_text(n), n as int),
        n > 0 ==> text::decimal_text(n)[0] != '0',
    decreases n,
{
    let s = text::decimal_text(n);
    if n < 10 {
        assert(s.drop_last() =~= Seq::<char>::empty());
        assert(s.last() == text::digit_char(n));
        assert(spelled_number(s.drop_last()) == 0);
    } else {
        lemma_decimal_text(n / 10);
        let head = text::decimal_text(n / 10);
        assert(s.drop_last() =~= head);
        assert(s.last() == text::digit_char(n % 10));
        assert forall|i: int| 0 <= i < s.len() implies '0' <= #[trigger] s[i] && s[i] <= '9' by {
            if i < head.len() {
                assert(s[i] == head[i]);
            }
        }
        assert(s[0] == head[0]);
    }
}

/// A number in decimal spells that number, in digits alone and without leading zeros.
pub proof fn law_decimals_spell_the_number(n: u64, r: String)
    requires
        call_ensures(decimal, (n,), r),
    ensures
        is_decimal(r@, n as int),
{
    lemma_decimal_text(n as nat);
}

proof fn lemma_trimmed_start(s: Seq<char>)
    ensures
        exists|a: Seq<char>| s == #[trigger] (a + text::trimmed_start(s)) && is_blank(a),
        text::trimmed_start(s).len() > 0 ==> !text::is_white_space(text::trimmed_start(s)[0]),
    decreases s.len(),
{
    let t = text::trimmed_start(s);
    if s.len() > 0 && text::is_white_space(s[0]) {
        lemma_trimmed_start(s.drop_first());
        assert(t == text::trimmed_start(s.drop_first()));
        let a = choose|a: Seq<char>| s.drop_first() == #[trigger] (a + t) && is_blank(a);
        assert(s =~= seq![s[0]] + s.drop_first());
        let b = seq![s[0]] + a;
        assert(s =~= b + t);
        assert(is_blank(b)) by {
            assert forall|i: int| 0 <= i < b.len() implies text::is_white_space(
                #[trigger] b[i],
            ) by {
                if i > 0 {
                    assert(b[i] == a[i - 1]);
                }
            }
        }
    } else {
        let a = Seq::<char>::empty();
        assert(s =~= a + t);
        assert(is_blank(a));
    }
}

proof fn lemma_trimmed_end(s: Seq<char>)
    ensures
        exists|b: Seq<char>| s == #[trigger] (text::trimmed_end(s) + b) && is_blank(b),
        text::trimmed_end(s).len() > 0 ==> !text::is_white_space(text::trimmed_end(s).last()),
    decreases s.len(),
{
    let t = text::trimmed_end(s);
    if s.len() > 0 && text::is_white_space(s.last()) {
        lemma_trimmed_end(s.drop_last());
        assert(t == text::trimmed_end(s.drop_last()));
        let b = choose|b: Seq<char>| s.drop_last() == #[trigger] (t + b) && is_blank(b);
        assert(s =~= s.drop_last().push(s.last()));
        let c = b.push(s.last());
        assert(s =~= t + c);
        assert(is_blank(c)) by {
            assert forall|i: int| 0 <= i < c.len() implies text::is_white_space(
                #[trigger] c[i],
            ) by {
                if i < b.len() {
                    assert(c[i] == b[i]);
                }
            }
        }
    } else {
        let b = Seq::<char>::empty();
        assert(s =~= t + b);
        assert(is_blank(b));
    }
}

proof fn lemma_trimmed(s: Seq<char>)
    ensures
        exists|a: Seq<char>, b: Seq<char>|
            s == #[trigger] (a + text::trimmed(s) + b) && is_blank(a) && is_blank(b),
        is_tight(text::trimmed(s)),
{
    let m = text::trimmed_start(s);
    let t = text::trimmed(s);
    lemma_trimmed_start(s);
    lemma_trimmed_end(m);
    let a = choose|a: Seq<char>| s == #[trigger] (a + m) && is_blank(a);
    let b = choose|b: Seq<char>| m == #[trigger] (t + b) && is_blank(b);
    assert(s =~= a + t + b);
    if t.len() > 0 {
        assert(m[0] == t[0]);
    }
}

/// Two ways to write a text as white space, a tight text, and white space have the same tight text.
proof fn lemma_tight_part_is_unique(
    a: Seq<char>,
    t: Seq<char>,
    b: Seq<char>,
    c: Seq<char>,
    u: Seq<char>,
    d: Seq<char>,
)
    requires
        a + t + b == c + u + d,
        is_blank(a),
        is_blank(b),
        is_blank(c),
        is_blank(d),
        is_tight(t),
        is_tight(u),
    ensures
        t == u,
{
    let s = a + t + b;
    let z = c + u + d;
    assert(s.len() == z.len());
    assert forall|i: int| 0 <= i < s.len() implies s[i] == z[i] by {}
    if t.len() > 0 {
        let i = a.len() as int;
        let j = a.len() + t.len() - 1;
        assert(s[i] == t[0]);
        assert(s[j] == t.last());
        if i < c.len() {
            assert(z[i] == c[i]);
        }
        if i >= c.len() + u.len() {
            assert(z[i] == d[i - c.len() - u.len()]);
        }
        assert(u.len() > 0);
        let k = c.len() as int;
        let l = c.len() + u.len() - 1;
        assert(z[k] == u[0]);
        assert(z[l] == u.last());
        if k < i {
            assert(s[k] == a[k]);
        }
        if l > j {
            assert(s[l] == b[l - a.len() - t.len()]);
        }
        if j > l {
            assert(z[j] == d[j - c.len() - u.len()]);
        }
        assert(i == k && j == l);
        assert forall|m: int| 0 <= m < t.len() implies t[m] == u[m] by {
            assert(s[i + m] == t[m]);
            assert(z[i + m] == u[m]);
        }
    } else if u.len() > 0 {
        let k = c.len() as int;
        assert(z[k] == u[0]);
        if k < a.len() {
            assert(s[k] == a[k]);
        } else {
            assert(s[k] == b[k - a.len()]);
        }
    }
    assert(t =~= u);
}

/// Trimming takes the white space at both ends away and nothing else: whatever stands between
/// white space and is tight is what is left.
pub proof fn law_trimming_takes_white_space_only(
    s: &str,
    r: &str,
    before: Seq<char>,
    middle: Seq<char>,
    after: Seq<char>,
)
    requires
        call_ensures(trim, (s,), r),
        s@ == before + middle + after,
        is_blank(before),
        is_blank(after),
        is_tight(middle),
    ensures
        r@ == middle,
{
    lemma_trimmed_decomposition(before, middle, after);
}

pub(crate) proof fn lemma_trimmed_decomposition(
    before: Seq<char>,
    middle: Seq<char>,
    after: Seq<char>,
)
    requires
        is_blank(before),
        is_blank(after),
        is_tight(middle),
    ensures
        text::trimmed(before + middle + after) == middle,
{
    let s = before + middle + after;
    lemma_trimmed(s);
    let t = text::trimmed(s);
    let (a, b) = choose|a: Seq<char>, b: Seq<char>|
        s == #[trigger] (a + t + b) && is_blank(a) && is_blank(b);
    lemma_tight_part_is_unique(a, t, b, before, middle, after);
}

pub(crate) proof fn lemma_last_dot(s: Seq<char>)
    ensures
        text::last_position(s, '.') == -1 ==> !s.contains('.'),
        text::last_position(s, '.') >= 0 ==> text::last_position(s, '.') < s.len()
            && s[text::last_position(s, '.')] == '.' && !s.skip(
            text::last_position(s, '.') + 1,
        ).contains('.'),
        -1 <= text::last_position(s, '.'),
    decreases s.len(),
{
    let at = text::last_position(s, '.');
    if s.len() > 0 {
        if s.last() == '.' {
            assert(s.skip(at + 1) =~= Seq::<char>::empty());
        } else {
            let h = s.drop_last();
            lemma_last_dot(h);
            if at == -1 {
                assert forall|i: int| 0 <= i < s.len() implies s[i] != '.' by {
                    if i < h.len() {
                        assert(h[i] == s[i]);
                        assert(!h.contains('.'));
                    }
                }
            } else {
                let tail = s.skip(at + 1);
                let shorter = h.skip(at + 1);
                assert forall|i: int| 0 <= i < tail.len() implies #[trigger] tail[i] != '.' by {
                    if i < shorter.len() {
                        assert(shorter[i] == tail[i]);
                        assert(!shorter.contains('.'));
                    }
                }
            }
        }
    }
}

/// In a text that ends in a dot and what has no dot, that dot is the last.
pub(crate) proof fn lemma_dot_is_last(stem: Seq<char>, ext: Seq<char>)
    requires
        !ext.contains('.'),
    ensures
        text::last_position(stem + seq!['.'] + ext, '.') == stem.len(),
    decreases ext.len(),
{
    let s = stem + seq!['.'] + ext;
    if ext.len() == 0 {
        assert(s =~= stem.push('.'));
    } else {
        let h = ext.drop_last();
        assert(s.last() == ext.last());
        assert(ext.contains(ext[ext.len() - 1]));
        assert forall|i: int| 0 <= i < h.len() implies h[i] != '.' by {
            assert(h[i] == ext[i]);
            assert(ext.contains(ext[i]));
        }
        lemma_dot_is_last(stem, h);
        assert(s.drop_last() =~= stem + seq!['.'] + h);
    }
}

/// A text is split at a dot after which there is none, and stays whole only where it has no dot.
pub proof fn law_a_text_is_split_at_its_last_dot(s: &str, r: Option<(&str, &str)>)
    requires
        call_ensures(split_last_dot, (s,), r),
    ensures
        match r {
            Some((stem, ext)) => s@ == stem@ + seq!['.'] + ext@ && !ext@.contains('.'),
            None => !s@.contains('.'),
        },
{
    lemma_last_dot(s@);
    if let Some((stem, ext)) = r {
        assert(s@ =~= stem@ + seq!['.'] + ext@);
    }
}

/// A prefix is stripped exactly where it stands.
pub proof fn law_a_prefix_is_stripped_where_it_stands(
    s: &str,
    prefix: &str,
    rest: Seq<char>,
    r: Option<&str>,
)
    requires
        call_ensures(strip_prefix, (s, prefix), r),
    ensures
        s@ == prefix@ + rest ==> (r matches Some(t) && t@ == rest),
        r matches Some(t) ==> s@ == prefix@ + t@,
{
    if s@ == prefix@ + rest {
        assert(s@.subrange(0, prefix@.len() as int) =~= prefix@);
        assert(s@.skip(prefix@.len() as int) =~= rest);
        if let Some(t) = r {
            assert(s@.skip(prefix@.len() as int) =~= t@);
        }
    }
}

/// Texts are the same where every character is, and a joined text is the one and then the other.
pub proof fn law_texts_are_compared_and_joined(
    a: &str,
    b: &str,
    same: bool,
    both: String,
)
    requires
        call_ensures(same_text, (a, b), same),
        call_ensures(joined, (a, b), both),
    ensures
        same <==> a@.len() == b@.len() && forall|i: int|
            0 <= i < a@.len() ==> #[trigger] a@[i] == b@[i],
        both@.len() == a@.len() + b@.len(),
        both@.take(a@.len() as int) == a@,
        both@.skip(a@.len() as int) == b@,
{
    if a@.len() == b@.len() && (forall|i: int| 0 <= i < a@.len() ==> #[trigger] a@[i] == b@[i]) {
        assert(a@ =~= b@);
    }
    assert(both@.take(a@.len() as int) =~= a@);
    assert(both@.skip(a@.len() as int) =~= b@);
}

/// What was inserted under a key is found there, and nothing else has changed.
pub proof fn law_what_is_inserted_is_found<V>(
    r: &mut Registry<V>,
    id: String,
    value: V,
    done: (),
    key: &str,
    found: Option<&V>,
)
    requires
        call_ensures(Registry::<V>::insert, (r, id, value), done),
        call_ensures(Registry::<V>::get, (&*final(r), key), found),
    ensures
        key@ == id@ ==> found == Some(&value),
        key@ != id@ ==> found == (if old(r)@.contains_key(key@) {
            Some(&old(r)@[key@])
        } else {
            None
        }),
{
}

/// What was removed is found no more, and nothing else has changed.
pub proof fn law_what_is_removed_is_gone<V>(
    r: &mut Registry<V>,
    id: &str,
    done: (),
    key: &str,
    found: Option<&V>,
)
    requires
        call_ensures(Registry::<V>::remove, (r, id), done),
        call_ensures(Registry::<V>::get, (&*final(r), key), found),
    ensures
        key@ == id@ ==> found is None,
        key@ != id@ ==> found == (if old(r)@.contains_key(key@) {
            Some(&old(r)@[key@])
        } else {
            None
        }),
{
}

/// A new or cleared registry has no key, and a key is reported exactly where there is one.
pub proof fn law_an_empty_registry_has_no_keys<V>(
    fresh: Registry<V>,
    cleared: &mut Registry<V>,
    done: (),
    r: &Registry<V>,
    key: &str,
    has: bool,
    found: Option<&V>,
)
    requires
        call_ensures(Registry::<V>::new, (), fresh),
        call_ensures(Registry::<V>::clear, (cleared,), done),
        call_ensures(Registry::<V>::contains_key, (r, key), has),
        call_ensures(Registry::<V>::get, (r, key), found),
    ensures
        !fresh@.contains_key(key@),
        !final(cleared)@.contains_key(key@),
        has <==> found is Some,
        has <==> r@.contains_key(key@),
        found matches Some(v) ==> *v == r@[key@],
{
}

} // verus!
