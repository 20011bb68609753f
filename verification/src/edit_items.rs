//! Lists in the edit form: a list field called `<name>` is edited as the
//! entries `<name>.0`, `<name>.1`, ...; the list is read back from them in
//! the order of their numbers.
use vstd::prelude::*;
use vstd::string::*;
use crate::text::{chars_of, split_on, split_spec, str_eq, views};

verus! {

broadcast use vstd::seq_lib::group_to_multiset_ensures;

/// The value of a sequence of decimal digits.
pub open spec fn digits_value(d: Seq<char>) -> nat
    decreases d.len(),
{
    if d.len() == 0 {
        0
    } else {
        digits_value(d.drop_last()) * 10 + (d.last() as nat - '0' as nat) as nat
    }
}

/// Every character is a decimal digit.
pub open spec fn all_digits(d: Seq<char>) -> bool {
    forall|i: int| 0 <= i < d.len() ==> '0' <= #[trigger] d[i] <= '9'
}

/// What `str::parse::<usize>` gives: an optional '+' followed by one or
/// more decimal digits whose value fits in `usize`.
pub open spec fn parse_usize_spec(s: Seq<char>) -> Option<nat> {
    let d = if s.len() > 0 && s[0] == '+' {
        s.drop_first()
    } else {
        s
    };
    if d.len() > 0 && all_digits(d) && digits_value(d) <= usize::MAX {
        Some(digits_value(d))
    } else {
        None
    }
}

/// A longer prefix of digits has a value at least as large.
proof fn lemma_digits_grow(d: Seq<char>, i: int)
    requires
        0 <= i <= d.len(),
        all_digits(d),
    ensures
        digits_value(d.take(i)) <= digits_value(d),
    decreases d.len() - i,
{
    if i < d.len() {
        lemma_digits_grow(d, i + 1);
        assert(d.take(i + 1).drop_last() =~= d.take(i));
        assert('0' <= d[i] <= '9');
    } else {
        assert(d.take(i) =~= d);
    }
}

/// Reads a `usize` written in decimal, as `str::parse::<usize>` does.
pub fn parse_usize(s: &str) -> (res: Option<usize>)
    ensures
        match parse_usize_spec(s@) {
            Some(v) => res == Some(v as usize),
            None => res is None,
        },
{
    let cs = chars_of(s);
    let start: usize = if cs.len() > 0 && cs[0] == '+' {
        1
    } else {
        0
    };
    let ghost d = if s@.len() > 0 && s@[0] == '+' {
        s@.drop_first()
    } else {
        s@
    };
    assert(d =~= cs@.subrange(start as int, cs@.len() as int));
    if start >= cs.len() {
        return None;
    }
    let mut value: u128 = 0;
    let mut i: usize = start;
    while i < cs.len()
        invariant
            cs@ == s@,
            d == (if s@.len() > 0 && s@[0] == '+' {
                s@.drop_first()
            } else {
                s@
            }),
            start <= i <= cs@.len(),
            d == cs@.subrange(start as int, cs@.len() as int),
            all_digits(d.take(i - start)),
            value == digits_value(d.take(i - start)),
            value <= usize::MAX,
        decreases cs@.len() - i,
    {
        let c = cs[i];
        let ghost k = (i - start) as int;
        assert(d[k] == c);
        if c < '0' || c > '9' {
            assert(!all_digits(d));
            return None;
        }
        let digit = (c as u32 - '0' as u32) as u128;
        value = value * 10 + digit;
        assert(d.take(k + 1).drop_last() =~= d.take(k));
        assert(d.take(k + 1).last() == c);
        assert(all_digits(d.take(k + 1)));
        i = i + 1;
        if value > usize::MAX as u128 {
            proof {
                if all_digits(d) {
                    lemma_digits_grow(d, k + 1);
                }
            }
            return None;
        }
    }
    assert(d.take(i - start) =~= d);
    Some(value as usize)
}

/// Character sequences in the order of `str`'s `<=`: character by
/// character, a proper prefix first.
pub open spec fn text_le(a: Seq<char>, b: Seq<char>) -> bool
    decreases a.len(),
{
    if a.len() == 0 {
        true
    } else if b.len() == 0 {
        false
    } else if a[0] != b[0] {
        a[0] < b[0]
    } else {
        text_le(a.drop_first(), b.drop_first())
    }
}

/// The order on text is total.
proof fn lemma_text_total(a: Seq<char>, b: Seq<char>)
    ensures
        text_le(a, b) || text_le(b, a),
    decreases a.len(),
{
    if a.len() > 0 && b.len() > 0 {
        if a[0] == b[0] {
            lemma_text_total(a.drop_first(), b.drop_first());
        }
    }
}

/// The order on text is transitive.
proof fn lemma_text_trans(a: Seq<char>, b: Seq<char>, c: Seq<char>)
    requires
        text_le(a, b),
        text_le(b, c),
    ensures
        text_le(a, c),
    decreases a.len(),
{
    if a.len() > 0 && b.len() > 0 && c.len() > 0 && a[0] == b[0] && b[0] == c[0] {
        lemma_text_trans(a.drop_first(), b.drop_first(), c.drop_first());
    }
}

/// Compares two strings in `str`'s order.
fn text_le_exec(a: &str, b: &str) -> (res: bool)
    ensures
        res == text_le(a@, b@),
{
    let x = chars_of(a);
    let y = chars_of(b);
    let mut i: usize = 0;
    assert(a@.skip(0) =~= a@);
    assert(b@.skip(0) =~= b@);
    while i < x.len() && i < y.len()
        invariant
            x@ == a@,
            y@ == b@,
            i <= x@.len(),
            i <= y@.len(),
            text_le(a@, b@) == text_le(a@.skip(i as int), b@.skip(i as int)),
        decreases x@.len() - i,
    {
        let ghost sa = a@.skip(i as int);
        let ghost sb = b@.skip(i as int);
        assert(sa.drop_first() =~= a@.skip(i + 1));
        assert(sb.drop_first() =~= b@.skip(i + 1));
        assert(sa[0] == x@[i as int]);
        assert(sb[0] == y@[i as int]);
        if x[i] != y[i] {
            return x[i] < y[i];
        }
        i = i + 1;
    }
    i == x.len()
}

/// Numbered entries in order: by number, then by value.
pub open spec fn entry_le(a: (nat, Seq<char>), b: (nat, Seq<char>)) -> bool {
    a.0 < b.0 || (a.0 == b.0 && text_le(a.1, b.1))
}

/// A sequence of numbered entries is in order.
pub open spec fn entries_sorted(s: Seq<(nat, Seq<char>)>) -> bool {
    forall|i: int, j: int| 0 <= i < j < s.len() ==> entry_le(#[trigger] s[i], #[trigger] s[j])
}

/// The entry of a list field `field` that key `k` holding `v` gives: a key
/// of exactly two pieces between dots, the first the field's name, the second
/// a number.
pub open spec fn field_entry(k: Seq<char>, v: Seq<char>, field: Seq<char>) -> Option<(nat, Seq<char>)> {
    let parts = split_spec(k, '.');
    if parts.len() == 2 && parts[0] == field && parse_usize_spec(parts[1]) is Some {
        Some((parse_usize_spec(parts[1])->0, v))
    } else {
        None
    }
}

/// The numbered entries of list field `field` among the form's values, in
/// the order of the values.
pub open spec fn field_entries(values: Seq<(String, String)>, field: Seq<char>) -> Seq<(nat, Seq<char>)>
    decreases values.len(),
{
    if values.len() == 0 {
        Seq::empty()
    } else {
        let prev = field_entries(values.drop_last(), field);
        match field_entry(values.last().0@, values.last().1@, field) {
            Some(e) => prev.push(e),
            None => prev,
        }
    }
}

/// The position at which `x` goes into the sorted entries `s`: after every
/// entry not greater than it.
fn insert_position(s: &Vec<(usize, String)>, x: &(usize, String)) -> (pos: usize)
    requires
        entries_sorted(pair_models(s@)),
    ensures
        pos <= s@.len(),
        forall|i: int| 0 <= i < pos ==> entry_le(#[trigger] pair_models(s@)[i], pair_model(*x)),
        forall|i: int| pos <= i < s@.len() ==> !entry_le(#[trigger] pair_models(s@)[i], pair_model(*x)),
{
    let mut i: usize = 0;
    while i < s.len()
        invariant
            i <= s@.len(),
            entries_sorted(pair_models(s@)),
            forall|j: int| 0 <= j < i ==> entry_le(#[trigger] pair_models(s@)[j], pair_model(*x)),
        decreases s@.len() - i,
    {
        let le = s[i].0 < x.0 || (s[i].0 == x.0 && text_le_exec(s[i].1.as_str(), x.1.as_str()));
        assert(pair_models(s@)[i as int] == pair_model(s@[i as int]));
        if !le {
            proof {
                assert forall|j: int| i <= j < s@.len() implies !entry_le(
                    #[trigger] pair_models(s@)[j],
                    pair_model(*x),
                ) by {
                    let a = pair_models(s@)[i as int];
                    let b = pair_models(s@)[j];
                    let c = pair_model(*x);
                    if j > i && entry_le(b, c) {
                        assert(entry_le(a, b));
                        if a.0 == b.0 && b.0 == c.0 {
                            lemma_text_trans(a.1, b.1, c.1);
                        }
                    }
                }
            }
            return i;
        }
        i = i + 1;
    }
    i
}

/// A numbered entry as a model.
pub open spec fn pair_model(p: (usize, String)) -> (nat, Seq<char>) {
    (p.0 as nat, p.1@)
}

/// The models of numbered entries.
pub open spec fn pair_models(s: Seq<(usize, String)>) -> Seq<(nat, Seq<char>)> {
    s.map_values(|p: (usize, String)| pair_model(p))
}

/// The values of list field `display_name` among the form's values
/// (key, value): those whose key is `<display_name>.<number>`, in the order
/// of their numbers, values of equal numbers in text order.
pub fn stringvec_for_field(values: &Vec<(String, String)>, display_name: &str) -> (res: Vec<String>)
    ensures
        exists|s: Seq<(nat, Seq<char>)>|
            s.to_multiset() == field_entries(values@, display_name@).to_multiset() && entries_sorted(s)
                && views(res@) == s.map_values(|p: (nat, Seq<char>)| p.1),
{
    let mut sorted: Vec<(usize, String)> = Vec::new();
    let mut i: usize = 0;
    while i < values.len()
        invariant
            i <= values@.len(),
            entries_sorted(pair_models(sorted@)),
            pair_models(sorted@).to_multiset() == field_entries(
                values@.take(i as int),
                display_name@,
            ).to_multiset(),
        decreases values@.len() - i,
    {
        let (k, v) = &values[i];
        let ghost prev = field_entries(values@.take(i as int), display_name@);
        proof {
            assert(values@.take(i + 1).drop_last() =~= values@.take(i as int));
            assert(values@.take(i + 1).last() == values@[i as int]);
        }
        let parts = split_on(k.as_str(), '.');
        if parts.len() == 2 {
            proof {
                assert(views(parts@)[0] == parts@[0]@);
                assert(views(parts@)[1] == parts@[1]@);
            }
            if str_eq(parts[0].as_str(), display_name) {
                match parse_usize(parts[1].as_str()) {
                    Some(n) => {
                        let x = (n, v.clone());
                        let pos = insert_position(&sorted, &x);
                        let ghost before = pair_models(sorted@);
                        sorted.insert(pos, x);
                        proof {
                            let after = pair_models(sorted@);
                            assert(after =~= before.insert(pos as int, pair_model(x)));
                            assert forall|a: int, b: int| 0 <= a < b < after.len() implies entry_le(
                                #[trigger] after[a],
                                #[trigger] after[b],
                            ) by {
                                let px = pair_model(x);
                                if a < pos && b == pos {
                                    assert(after[a] == before[a]);
                                } else if a == pos && b > pos {
                                    let y = before[b - 1];
                                    assert(after[b] == y);
                                    assert(!entry_le(y, px));
                                    if y.0 == px.0 {
                                        lemma_text_total(y.1, px.1);
                                    }
                                } else if a < pos && b > pos {
                                    assert(after[a] == before[a]);
                                    assert(after[b] == before[b - 1]);
                                } else if b < pos {
                                    assert(after[a] == before[a]);
                                    assert(after[b] == before[b]);
                                } else {
                                    assert(after[a] == before[a - 1]);
                                    assert(after[b] == before[b - 1]);
                                }
                            }
                            vstd::seq_lib::to_multiset_insert(before, pos as int, pair_model(x));
                            assert(field_entries(values@.take(i + 1), display_name@) == prev.push(
                                pair_model(x),
                            ));
                        }
                    },
                    None => {},
                }
            }
        }
        i = i + 1;
    }
    assert(values@.take(values@.len() as int) =~= values@);
    let ghost s = pair_models(sorted@);
    let mut res: Vec<String> = Vec::new();
    let mut j: usize = 0;
    while j < sorted.len()
        invariant
            j <= sorted@.len(),
            s == pair_models(sorted@),
            views(res@) == s.take(j as int).map_values(|p: (nat, Seq<char>)| p.1),
        decreases sorted@.len() - j,
    {
        let ghost before = res@;
        res.push(sorted[j].1.clone());
        assert(s.take(j + 1) =~= s.take(j as int).push(s[j as int]));
        assert(views(res@) =~= views(before).push(sorted@[j as int].1@));
        assert(s.take(j + 1).map_values(|p: (nat, Seq<char>)| p.1) =~= s.take(j as int).map_values(
            |p: (nat, Seq<char>)| p.1,
        ).push(s[j as int].1));
        j = j + 1;
    }
    assert(s.take(s.len() as int) =~= s);
    res
}

} // verus!
