//! Accept-Language handling: parse a header into a descending list of
//! preferred language tags, and pick the best match out of a localized
//! name table.

use vstd::prelude::*;

verus! {

use crate::ip::is_digit;
use crate::text::{split_bytes, split_vec, trim_spec, trim_vec, lower_bytes, lower_vec, bytes_eq};

/// The weight of one `q=` parameter, in thousandths. An absent or
/// malformed weight counts as zero; a tag without parameters gets 1000.
pub open spec fn q_milli(w: Seq<u8>) -> int {
    if w.len() < 2 || w[0] != 113 || w[1] != 61 {
        0
    } else {
        let rest = w.skip(2);
        if rest.len() == 1 && rest[0] == 49 {
            1000
        } else if 2 <= rest.len() <= 5 && rest[0] == 49 && rest[1] == 46 && (forall|i: int|
            2 <= i < rest.len() ==> rest[i] == 48) {
            1000
        } else if rest.len() == 1 && rest[0] == 48 {
            0
        } else if 2 <= rest.len() <= 5 && rest[0] == 48 && rest[1] == 46 && (forall|i: int|
            2 <= i < rest.len() ==> is_digit(#[trigger] rest[i])) {
            if rest.len() == 2 {
                0
            } else if rest.len() == 3 {
                (rest[2] - 48) * 100
            } else if rest.len() == 4 {
                (rest[2] - 48) * 100 + (rest[3] - 48) * 10
            } else {
                (rest[2] - 48) * 100 + (rest[3] - 48) * 10 + (rest[4] - 48)
            }
        } else {
            0
        }
    }
}

/// One header element, as a lowercased tag with its weight in
/// thousandths; `None` for the literal element `-`, which is dropped.
pub open spec fn parsed_entry(el: Seq<u8>) -> Option<(Seq<u8>, int)> {
    if el.len() == 1 && el[0] == 45 {
        None
    } else {
        let parts = split_bytes(el, 59);
        let tag = lower_bytes(trim_spec(parts[0]));
        if parts.len() == 1 {
            Some((tag, 1000))
        } else {
            Some((tag, q_milli(lower_bytes(trim_spec(parts[1])))))
        }
    }
}

/// The entries of a list of header elements, in appearance order.
pub open spec fn parsed_entries(parts: Seq<Seq<u8>>) -> Seq<(Seq<u8>, int)>
    decreases parts.len(),
{
    if parts.len() == 0 {
        Seq::empty()
    } else {
        parsed_entries(parts.drop_last()) + match parsed_entry(parts.last()) {
            Some(e) => seq![e],
            None => Seq::empty(),
        }
    }
}

/// The tags whose weight is exactly `q`, in appearance order.
pub open spec fn tags_with_q(entries: Seq<(Seq<u8>, int)>, q: int) -> Seq<Seq<u8>>
    decreases entries.len(),
{
    if entries.len() == 0 {
        Seq::empty()
    } else {
        tags_with_q(entries.drop_last(), q) + if entries.last().1 == q {
            seq![entries.last().0]
        } else {
            Seq::empty()
        }
    }
}

/// All tags with weight at most `hi`, heaviest first, ties in
/// appearance order.
pub open spec fn tags_by_weight(entries: Seq<(Seq<u8>, int)>, hi: int) -> Seq<Seq<u8>>
    decreases hi + 1,
{
    if hi < 0 {
        Seq::empty()
    } else {
        tags_with_q(entries, hi) + tags_by_weight(entries, hi - 1)
    }
}

/// What `preferred_languages` returns: the header's tags in descending
/// weight (ties in appearance order), then the default.
pub open spec fn preferred_languages_spec(header: Seq<u8>, default: Seq<u8>) -> Seq<Seq<u8>> {
    tags_by_weight(parsed_entries(split_bytes(header, 44)), 1000).push(default)
}

/// Parse the Accept-Language header into the list of preferred language
/// tags, most preferred first, with the configured default appended as
/// the final fallback. Tags are lowercased and trimmed; a weight is read
/// from a `q=` parameter in thousandths (absent: 1000; malformed: 0);
/// the literal element `-` is dropped.
pub fn preferred_languages(alheader: &Vec<u8>, default: &Vec<u8>) -> (r: Vec<Vec<u8>>)
    ensures
        r@.map_values(|t: Vec<u8>| t@) == preferred_languages_spec(alheader@, default@),
{
    let elements = split_vec(alheader, 44);
    let ghost eviews = split_bytes(alheader@, 44);
    // Parse each element into a (tag, weight) entry.
    let mut entries: Vec<(Vec<u8>, u16)> = Vec::new();
    let ghost entry_view = |e: (Vec<u8>, u16)| (e.0@, e.1 as int);
    let mut i: usize = 0;
    proof {
        assert(entries@.map_values(entry_view) =~= parsed_entries(eviews.take(0)));
    }
    while i < elements.len()
        invariant
            i <= elements@.len(),
            eviews == elements@.map_values(|p: Vec<u8>| p@),
            eviews.len() == elements@.len(),
            entry_view == (|e: (Vec<u8>, u16)| (e.0@, e.1 as int)),
            entries@.map_values(entry_view) == parsed_entries(eviews.take(i as int)),
            forall|j: int| 0 <= j < entries@.len() ==> (#[trigger] entries@[j]).1 <= 1000,
        decreases elements@.len() - i,
    {
        proof {
            assert(eviews.take(i + 1).drop_last() =~= eviews.take(i as int));
            assert(eviews.take(i + 1).last() == eviews[i as int]);
            assert(elements@.map_values(|p: Vec<u8>| p@)[i as int] == elements@[i as int]@);
        }
        let el = &elements[i];
        if !(el.len() == 1 && el[0] == 45) {
            let parts = split_vec(el, 59);
            proof {
                assert(split_bytes(el@, 59).len() >= 1);
                assert(split_bytes(el@, 59)[0] == parts@.map_values(|p: Vec<u8>| p@)[0]);
                if parts@.len() >= 2 {
                    assert(split_bytes(el@, 59)[1] == parts@.map_values(|p: Vec<u8>| p@)[1]);
                }
            }
            let tag = lower_vec(&trim_vec(&parts[0]));
            let q: u16 = if parts.len() == 1 {
                1000
            } else {
                parse_q(&lower_vec(&trim_vec(&parts[1])))
            };
            entries.push((tag, q));
            proof {
                assert(entries@.map_values(entry_view) =~= parsed_entries(eviews.take(i + 1)));
            }
        } else {
            proof {
                assert(entries@.map_values(entry_view) =~= parsed_entries(eviews.take(i + 1)));
            }
        }
        i = i + 1;
    }
    proof {
        assert(eviews.take(eviews.len() as int) =~= eviews);
    }
    let ghost sentries = entries@.map_values(entry_view);
    // Emit tags bucket by bucket, heaviest weight first.
    let mut out: Vec<Vec<u8>> = Vec::new();
    let mut qi: u16 = 0;
    proof {
        assert(out@.map_values(|t: Vec<u8>| t@) =~= Seq::<Seq<u8>>::empty());
        assert(Seq::<Seq<u8>>::empty() + tags_by_weight(sentries, 1000) =~= tags_by_weight(
            sentries,
            1000,
        ));
    }
    while qi <= 1000
        invariant
            qi <= 1001,
            sentries == entries@.map_values(entry_view),
            entry_view == (|e: (Vec<u8>, u16)| (e.0@, e.1 as int)),
            forall|j: int| 0 <= j < entries@.len() ==> (#[trigger] entries@[j]).1 <= 1000,
            out@.map_values(|t: Vec<u8>| t@) + tags_by_weight(sentries, 1000 - qi as int)
                == tags_by_weight(sentries, 1000),
        decreases 1001 - qi,
    {
        let q: u16 = 1000 - qi;
        let ghost out0 = out@.map_values(|t: Vec<u8>| t@);
        // Collect this bucket, in appearance order.
        let mut j: usize = 0;
        proof {
            assert(out@.map_values(|t: Vec<u8>| t@) =~= out0 + tags_with_q(
                sentries.take(0),
                q as int,
            ));
        }
        while j < entries.len()
            invariant
                j <= entries@.len(),
                q == 1000 - qi,
                qi <= 1000,
                sentries == entries@.map_values(entry_view),
                entry_view == (|e: (Vec<u8>, u16)| (e.0@, e.1 as int)),
                forall|k: int| 0 <= k < entries@.len() ==> (#[trigger] entries@[k]).1 <= 1000,
                sentries.len() == entries@.len(),
                out0 + tags_by_weight(sentries, q as int) == tags_by_weight(sentries, 1000),
                out@.map_values(|t: Vec<u8>| t@) == out0 + tags_with_q(
                    sentries.take(j as int),
                    q as int,
                ),
            decreases entries@.len() - j,
        {
            proof {
                assert(sentries.take(j + 1).drop_last() =~= sentries.take(j as int));
                assert(sentries.take(j + 1).last() == sentries[j as int]);
                assert(entries@.map_values(entry_view)[j as int] == entry_view(entries@[j as int]));
            }
            if entries[j].1 == q {
                let tag = entries[j].0.clone();
                let ghost outp = out@.map_values(|t: Vec<u8>| t@);
                out.push(tag);
                proof {
                    assert(out@.map_values(|t: Vec<u8>| t@) =~= outp.push(entries@[j as int].0@));
                    assert(tags_with_q(sentries.take(j + 1), q as int) == tags_with_q(
                        sentries.take(j as int),
                        q as int,
                    ) + seq![sentries[j as int].0]);
                    assert(outp.push(entries@[j as int].0@) =~= out0 + tags_with_q(
                        sentries.take(j + 1),
                        q as int,
                    ));
                    assert(out@.map_values(|t: Vec<u8>| t@) =~= out0 + tags_with_q(
                        sentries.take(j + 1),
                        q as int,
                    ));
                }
            } else {
                proof {
                    assert(out@.map_values(|t: Vec<u8>| t@) =~= out0 + tags_with_q(
                        sentries.take(j + 1),
                        q as int,
                    ));
                }
            }
            j = j + 1;
        }
        proof {
            assert(sentries.take(sentries.len() as int) =~= sentries);
            assert(out@.map_values(|t: Vec<u8>| t@) + tags_by_weight(sentries, q as int - 1) =~= (
            out0 + tags_with_q(sentries, q as int)) + tags_by_weight(sentries, q as int - 1));
            assert((out0 + tags_with_q(sentries, q as int)) + tags_by_weight(sentries, q as int - 1)
                =~= out0 + tags_by_weight(sentries, q as int));
        }
        qi = qi + 1;
    }
    proof {
        assert(tags_by_weight(sentries, 1000 - qi as int) =~= Seq::<Seq<u8>>::empty());
        assert(out@.map_values(|t: Vec<u8>| t@) + Seq::<Seq<u8>>::empty() =~= out@.map_values(
            |t: Vec<u8>| t@,
        ));
    }
    let mut d: Vec<u8> = Vec::new();
    let mut k: usize = 0;
    while k < default.len()
        invariant
            k <= default@.len(),
            d@ == default@.take(k as int),
        decreases default@.len() - k,
    {
        d.push(default[k]);
        proof {
            assert(default@.take(k + 1) =~= default@.take(k as int).push(default@[k as int]));
        }
        k = k + 1;
    }
    proof {
        assert(d@ =~= default@);
    }
    out.push(d);
    proof {
        assert(out@.map_values(|t: Vec<u8>| t@) =~= preferred_languages_spec(
            alheader@,
            default@,
        ));
    }
    out
}

/// Parse one lowercased, trimmed weight parameter into thousandths.
fn parse_q(w: &Vec<u8>) -> (r: u16)
    ensures
        r as int == q_milli(w@),
        r <= 1000,
{
    if w.len() < 2 || w[0] != 113 || w[1] != 61 {
        return 0;
    }
    let n = w.len();
    let ghost rest = w@.skip(2);
    proof {
        assert(rest.len() == n - 2);
        assert(forall|i: int| 0 <= i < rest.len() ==> rest[i] == w@[i + 2]);
    }
    if n == 3 && w[2] == 49 {
        return 1000;
    }
    if n >= 4 && n <= 7 && w[2] == 49 && w[3] == 46 {
        let mut i: usize = 4;
        while i < n
            invariant
                4 <= i <= n,
                n == w@.len(),
                n <= 7,
                w@[0] == 113,
                w@[1] == 61,
                w@[2] == 49,
                w@[3] == 46,
                forall|j: int| 4 <= j < i ==> w@[j] == 48,
            decreases n - i,
        {
            if w[i] != 48 {
                proof {
                    assert(w@.skip(2)[i - 2] == w@[i as int]);
                }
                return 0;
            }
            i = i + 1;
        }
        proof {
            assert(forall|j: int| 2 <= j < w@.skip(2).len() ==> w@.skip(2)[j] == w@[j + 2]);
        }
        return 1000;
    }
    if n == 3 && w[2] == 48 {
        return 0;
    }
    if n >= 4 && n <= 7 && w[2] == 48 && w[3] == 46 {
        let mut i: usize = 4;
        while i < n
            invariant
                4 <= i <= n,
                n == w@.len(),
                n <= 7,
                w@[0] == 113,
                w@[1] == 61,
                w@[2] == 48,
                w@[3] == 46,
                forall|j: int| 4 <= j < i ==> is_digit(w@[j]),
            decreases n - i,
        {
            if w[i] < 48 || w[i] > 57 {
                proof {
                    assert(w@.skip(2)[i - 2] == w@[i as int]);
                }
                return 0;
            }
            i = i + 1;
        }
        proof {
            assert(forall|j: int| 2 <= j < w@.skip(2).len() ==> w@.skip(2)[j] == w@[j + 2]);
        }
        if n == 4 {
            return 0;
        }
        let mut v: u16 = (w[4] - 48) as u16 * 100;
        if n >= 6 {
            v = v + (w[5] - 48) as u16 * 10;
        }
        if n >= 7 {
            v = v + (w[6] - 48) as u16;
        }
        return v;
    }
    0
}

/// The first value whose key equals `key`, if any.
pub open spec fn lookup(elements: Seq<(Seq<u8>, Seq<char>)>, key: Seq<u8>) -> Option<Seq<char>>
    decreases elements.len(),
{
    if elements.len() == 0 {
        None
    } else if elements[0].0 == key {
        Some(elements[0].1)
    } else {
        lookup(elements.skip(1), key)
    }
}

/// The language tag `*`: take any available value.
pub open spec fn is_wildcard(tag: Seq<u8>) -> bool {
    tag.len() == 1 && tag[0] == 42
}

/// The primary subtag: what stands before the first `-`.
pub open spec fn primary_subtag(tag: Seq<u8>) -> Seq<u8> {
    let i = crate::text::find_byte(tag, 45);
    if i >= 0 {
        tag.take(i)
    } else {
        tag
    }
}

/// What `get_preferred_language_element` returns: for each preferred
/// tag in turn, a wildcard takes the table's first value; otherwise the
/// tag is looked up verbatim, then (when it has a dialect) by its
/// primary subtag; when no tag matches, nothing.
pub open spec fn selected_element(
    elements: Seq<(Seq<u8>, Seq<char>)>,
    langs: Seq<Seq<u8>>,
) -> Option<Seq<char>>
    decreases langs.len(),
{
    if langs.len() == 0 {
        None
    } else {
        let l = langs[0];
        if is_wildcard(l) {
            if elements.len() > 0 {
                Some(elements[0].1)
            } else {
                None
            }
        } else if lookup(elements, l) is Some {
            lookup(elements, l)
        } else if crate::text::find_byte(l, 45) >= 0 && lookup(elements, primary_subtag(l))
            is Some {
            lookup(elements, primary_subtag(l))
        } else {
            selected_element(elements, langs.skip(1))
        }
    }
}

/// Return the element that most closely matches the preferred languages,
/// rounding a dialect up to its primary subtag where possible.
pub fn get_preferred_language_element(
    langs: &Vec<Vec<u8>>,
    elements: &Vec<(Vec<u8>, String)>,
) -> (r: Option<String>)
    ensures
        match r {
            Some(v) => selected_element(
                elements@.map_values(|e: (Vec<u8>, String)| (e.0@, e.1@)),
                langs@.map_values(|t: Vec<u8>| t@),
            ) == Some(v@),
            None => selected_element(
                elements@.map_values(|e: (Vec<u8>, String)| (e.0@, e.1@)),
                langs@.map_values(|t: Vec<u8>| t@),
            ) is None,
        },
{
    let ghost eview = elements@.map_values(|e: (Vec<u8>, String)| (e.0@, e.1@));
    let ghost lview = langs@.map_values(|t: Vec<u8>| t@);
    let mut i: usize = 0;
    proof {
        assert(lview.skip(0) =~= lview);
    }
    while i < langs.len()
        invariant
            i <= langs@.len(),
            eview == elements@.map_values(|e: (Vec<u8>, String)| (e.0@, e.1@)),
            lview == langs@.map_values(|t: Vec<u8>| t@),
            lview.len() == langs@.len(),
            selected_element(eview, lview) == selected_element(eview, lview.skip(i as int)),
        decreases langs@.len() - i,
    {
        proof {
            assert(lview.skip(i as int)[0] == lview[i as int]);
            assert(lview[i as int] == langs@[i as int]@);
        }
        let l = &langs[i];
        if l.len() == 1 && l[0] == 42 {
            if elements.len() > 0 {
                proof {
                    assert(eview[0] == (elements@[0].0@, elements@[0].1@));
                }
                return Some(elements[0].1.clone());
            } else {
                return None;
            }
        }
        match lookup_exec(elements, l) {
            Some(v) => {
                return Some(v);
            },
            None => {},
        }
        if let Some(hyu) = find_hyphen(l) {
            let mut primary: Vec<u8> = Vec::new();
            let mut k: usize = 0;
            while k < hyu
                invariant
                    k <= hyu,
                    hyu <= l@.len(),
                    primary@ == l@.take(k as int),
                decreases hyu - k,
            {
                primary.push(l[k]);
                proof {
                    assert(l@.take(k + 1) =~= l@.take(k as int).push(l@[k as int]));
                }
                k = k + 1;
            }
            proof {
                assert(primary@ =~= primary_subtag(l@));
            }
            match lookup_exec(elements, &primary) {
                Some(v) => {
                    return Some(v);
                },
                None => {},
            }
        }
        proof {
            assert(lview.skip(i as int).skip(1) =~= lview.skip(i + 1));
        }
        i = i + 1;
    }
    None
}

/// Find the first `-`, if any.
fn find_hyphen(l: &Vec<u8>) -> (r: Option<usize>)
    ensures
        match r {
            Some(i) => i < l@.len() && crate::text::find_byte(l@, 45) == i,
            None => crate::text::find_byte(l@, 45) == -1,
        },
{
    let mut i: usize = 0;
    while i < l.len()
        invariant
            i <= l@.len(),
            forall|j: int| 0 <= j < i ==> l@[j] != 45,
        decreases l@.len() - i,
    {
        if l[i] == 45 {
            proof {
                crate::text::lemma_find_byte_at(l@, 45, i as int);
            }
            return Some(i);
        }
        i = i + 1;
    }
    proof {
        crate::text::lemma_find_byte_none(l@, 45);
    }
    None
}

/// Scan for the first pair whose key equals `key`.
fn lookup_exec(elements: &Vec<(Vec<u8>, String)>, key: &Vec<u8>) -> (r: Option<String>)
    ensures
        match r {
            Some(v) => lookup(
                elements@.map_values(|e: (Vec<u8>, String)| (e.0@, e.1@)),
                key@,
            ) == Some(v@),
            None => lookup(elements@.map_values(|e: (Vec<u8>, String)| (e.0@, e.1@)), key@)
                is None,
        },
{
    let ghost eview = elements@.map_values(|e: (Vec<u8>, String)| (e.0@, e.1@));
    let mut i: usize = 0;
    proof {
        assert(eview.skip(0) =~= eview);
    }
    while i < elements.len()
        invariant
            i <= elements@.len(),
            eview == elements@.map_values(|e: (Vec<u8>, String)| (e.0@, e.1@)),
            eview.len() == elements@.len(),
            lookup(eview, key@) == lookup(eview.skip(i as int), key@),
        decreases elements@.len() - i,
    {
        proof {
            assert(eview.skip(i as int)[0] == eview[i as int]);
            assert(eview[i as int] == (elements@[i as int].0@, elements@[i as int].1@));
            assert(eview.skip(i as int).skip(1) =~= eview.skip(i + 1));
        }
        if bytes_eq(&elements[i].0, key) {
            return Some(elements[i].1.clone());
        }
        i = i + 1;
    }
    None
}

} // verus!
