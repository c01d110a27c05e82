//! Auto-grouping: bucket files by their device-name prefix.
//!
//! The device key of a file is its stem with the trailing take-number
//! digits and any trailing separators removed; a stem that is nothing but
//! digits falls back to its first four characters.

use crate::files::spec_extension;
use crate::files::spec_file_name;
use crate::text::lex_le;
use crate::text::lemma_lex_le_total;
use crate::text::lemma_lex_le_trans;
use crate::text::lower_seq;
use crate::text::push_char;
use crate::text::str_eq;
use crate::text::str_lex_le;
use crate::text::to_ascii_lower;
use vstd::multiset::Multiset;
use vstd::prelude::*;
use vstd::string::StrSliceExecFns;
use vstd::string::StringExecFns;

verus! {

/// An ASCII decimal digit.
pub open spec fn spec_is_digit(c: char) -> bool {
    48 <= (c as u32) <= 57
}

/// The sequence with its maximal suffix of ASCII digits removed.
pub open spec fn spec_strip_trailing_digits(s: Seq<char>) -> Seq<char>
    decreases s.len(),
{
    if s.len() > 0 && spec_is_digit(s.last()) {
        spec_strip_trailing_digits(s.drop_last())
    } else {
        s
    }
}

/// Relies on `regex::Regex::new` and `Regex::replace`: the anchored pattern
/// of one or more trailing ASCII digits matches exactly the maximal digit
/// suffix, and replacing it with nothing removes it; a string without such
/// a suffix comes back unchanged.  The fixed pattern is valid, so
/// construction cannot fail.
#[verifier::external_body]
fn strip_trailing_digits(s: &str) -> (r: String)
    ensures
        r@ == spec_strip_trailing_digits(s@),
{
    let re = regex::Regex::new("[0-9]+$").unwrap();
    re.replace(s, "").into_owned()
}

/// A trailing separator character: underscore, hyphen, space, or dot.
pub open spec fn spec_is_sep(c: char) -> bool {
    c == '_' || c == '-' || c == ' ' || c == '.'
}

/// The sequence with its maximal suffix of separators removed.
pub open spec fn spec_trim_seps(s: Seq<char>) -> Seq<char>
    decreases s.len(),
{
    if s.len() > 0 && spec_is_sep(s.last()) {
        spec_trim_seps(s.drop_last())
    } else {
        s
    }
}

/// The file-name stem: the name without its extension.
pub open spec fn spec_stem(s: Seq<char>) -> Seq<char> {
    let f = spec_file_name(s);
    match spec_extension(f) {
        Some(e) => f.take(f.len() - e.len() - 1),
        None => f,
    }
}

/// The device key of a path: the stem with trailing digits, then trailing
/// separators stripped; if nothing remains, the stem's first four
/// characters; an empty stem keys the fallback group.
pub open spec fn spec_device_key(s: Seq<char>) -> Seq<char> {
    let stem = spec_stem(s);
    if stem.len() == 0 {
        "Import"@
    } else {
        let k = spec_trim_seps(spec_strip_trailing_digits(stem));
        if k.len() == 0 {
            stem.take(
                if stem.len() < 4 {
                    stem.len() as int
                } else {
                    4
                },
            )
        } else {
            k
        }
    }
}

/// An extension names the characters after the last dot of the name, and
/// that dot never sits first.
proof fn lemma_extension_structure(f: Seq<char>)
    ensures
        match spec_extension(f) {
            Some(e) => {
                let d = f.len() - e.len() - 1;
                &&& 1 <= d < f.len()
                &&& f[d] == '.'
                &&& e =~= f.skip(d + 1)
                &&& forall|k: int| d < k < f.len() ==> f[k] != '.'
            },
            None => forall|k: int| 1 <= k < f.len() ==> f[k] != '.',
        },
    decreases f.len(),
{
    if f.len() <= 1 {
    } else if f.last() == '.' {
        assert(spec_extension(f)->0 =~= f.skip(f.len() - 0 - 1 + 1));
    } else {
        lemma_extension_structure(f.drop_last());
        match spec_extension(f.drop_last()) {
            Some(e0) => {
                let d = f.drop_last().len() - e0.len() - 1;
                assert(f.drop_last()[d] == f[d]);
                assert(spec_extension(f)->0 =~= e0.push(f.last()));
                assert(e0.push(f.last()) =~= f.skip(d + 1)) by {
                    assert(e0 =~= f.drop_last().skip(d + 1));
                }
                assert forall|k: int| d < k < f.len() implies f[k] != '.' by {
                    if k < f.len() - 1 {
                        assert(f.drop_last()[k] != '.');
                    }
                }
            },
            None => {
                assert forall|k: int| 1 <= k < f.len() implies f[k] != '.' by {
                    if k < f.len() - 1 {
                        assert(f.drop_last()[k] != '.');
                    }
                }
            },
        }
    }
}

/// The file name of a path, as a fresh string.
pub fn file_name_of(path: &str) -> (r: String)
    ensures
        r@ == spec_file_name(path@),
{
    let len = path.unicode_len();
    let mut name = String::new();
    let mut i: usize = 0;
    while i < len
        invariant
            i <= len,
            len == path@.len(),
            name@ == spec_file_name(path@.take(i as int)),
        decreases len - i,
    {
        let c = path.get_char(i);
        proof {
            assert(path@.take(i + 1).drop_last() =~= path@.take(i as int));
            assert(path@.take(i + 1).last() == path@[i as int]);
        }
        if c as u32 == 47 {
            name = String::new();
        } else {
            push_char(&mut name, c);
        }
        i = i + 1;
    }
    proof {
        assert(path@.take(len as int) =~= path@);
    }
    name
}

/// The stem of a path, as a fresh string.
pub fn stem_of(path: &str) -> (r: String)
    ensures
        r@ == spec_stem(path@),
{
    let name = file_name_of(path);
    let nlen = name.as_str().unicode_len();
    // find the last dot that does not sit first
    let mut last_dot: Option<usize> = None;
    let mut j: usize = 0;
    while j < nlen
        invariant
            j <= nlen,
            nlen == name@.len(),
            name@ == spec_file_name(path@),
            match last_dot {
                Some(d) => 1 <= d < j && name@[d as int] == '.' && forall|k: int|
                    d < k < j ==> name@[k] != '.',
                None => forall|k: int| 1 <= k < j ==> name@[k] != '.',
            },
        decreases nlen - j,
    {
        let c = name.as_str().get_char(j);
        if c as u32 == 46 && j > 0 {
            proof {
                assert(name@[j as int] == '.');
            }
            last_dot = Some(j);
        } else {
            proof {
                assert(c as u32 != 46 || j == 0);
                assert(name@[j as int] == c);
                if c as u32 != 46 {
                    assert(name@[j as int] != '.');
                }
            }
        }
        j = j + 1;
    }
    proof {
        lemma_extension_structure(name@);
    }
    match last_dot {
        Some(d) => {
            let r = name.as_str().substring_char(0, d).to_owned();
            proof {
                assert(spec_extension(name@) is Some);
                let e = spec_extension(name@)->0;
                assert(name@.len() - e.len() - 1 == d);
                assert(r@ =~= name@.take(d as int));
            }
            r
        },
        None => {
            proof {
                assert(spec_extension(name@) is None);
            }
            name
        },
    }
}

/// The device key of a path, as a fresh string.
pub fn device_key(path: &str) -> (r: String)
    ensures
        r@ == spec_device_key(path@),
{
    let stem = stem_of(path);
    let slen = stem.as_str().unicode_len();
    if slen == 0 {
        return String::from_str("Import");
    }
    let stripped = strip_trailing_digits(stem.as_str());
    // trim trailing separators
    let klen = stripped.as_str().unicode_len();
    let mut l: usize = klen;
    proof {
        assert(stripped@.take(klen as int) =~= stripped@);
    }
    while l > 0
        invariant
            l <= klen,
            klen == stripped@.len(),
            spec_trim_seps(stripped@) == spec_trim_seps(stripped@.take(l as int)),
        ensures
            l <= klen,
            spec_trim_seps(stripped@) == spec_trim_seps(stripped@.take(l as int)),
            l == 0 || !spec_is_sep(stripped@[l - 1]),
        decreases l,
    {
        let c = stripped.as_str().get_char(l - 1);
        let is_sep = c as u32 == 95 || c as u32 == 45 || c as u32 == 32 || c as u32 == 46;
        proof {
            assert(('_' as u32 == 95) && ('-' as u32 == 45) && (' ' as u32 == 32) && ('.' as u32
                == 46));
            assert(stripped@[l - 1] == c);
            assert(is_sep == spec_is_sep(c));
        }
        if !is_sep {
            break;
        }
        proof {
            assert(stripped@.take(l as int).drop_last() =~= stripped@.take(l - 1));
            assert(stripped@.take(l as int).last() == c);
        }
        l = l - 1;
    }
    proof {
        if l > 0 {
            assert(stripped@.take(l as int).last() == stripped@[l - 1]);
            assert(spec_trim_seps(stripped@.take(l as int)) == stripped@.take(l as int));
        } else {
            assert(stripped@.take(0).len() == 0);
        }
    }
    if l == 0 {
        // nothing but digits and separators: fall back to the stem's head
        let take_n: usize = if slen < 4 {
            slen
        } else {
            4
        };
        let r = stem.as_str().substring_char(0, take_n).to_owned();
        proof {
            assert(r@ =~= stem@.take(take_n as int));
        }
        r
    } else {
        let r = stripped.as_str().substring_char(0, l).to_owned();
        proof {
            assert(r@ =~= stripped@.take(l as int));
        }
        r
    }
}

/// A path is filed in one of the groups.
pub open spec fn spec_in_groups(groups: Seq<(String, Vec<String>)>, path: String) -> bool {
    exists|g: int, k: int|
        0 <= g < groups.len() && 0 <= k < groups[g].1@.len() && groups[g].1@[k] == path
}

/// All group members, concatenated in group order.
pub open spec fn spec_group_members(groups: Seq<(String, Vec<String>)>) -> Seq<String>
    decreases groups.len(),
{
    if groups.len() == 0 {
        Seq::<String>::empty()
    } else {
        spec_group_members(groups.drop_last()) + groups.last().1@
    }
}

/// Inserting one member into one group adds exactly that member to the
/// concatenated members, as a multiset.
proof fn lemma_members_add_member(
    pre: Seq<(String, Vec<String>)>,
    cur: Seq<(String, Vec<String>)>,
    g: int,
    p: String,
)
    requires
        0 <= g < pre.len(),
        cur.len() == pre.len(),
        forall|h: int| 0 <= h < pre.len() && h != g ==> cur[h] == pre[h],
        cur[g].1@.to_multiset() == pre[g].1@.to_multiset().insert(p),
    ensures
        spec_group_members(cur).to_multiset() =~= spec_group_members(pre).to_multiset().insert(p),
    decreases pre.len(),
{
    broadcast use vstd::seq_lib::group_to_multiset_ensures;
    broadcast use vstd::multiset::group_multiset_axioms;

    vstd::seq_lib::lemma_multiset_commutative(spec_group_members(pre.drop_last()), pre.last().1@);
    vstd::seq_lib::lemma_multiset_commutative(spec_group_members(cur.drop_last()), cur.last().1@);
    if g == pre.len() - 1 {
        assert(cur.drop_last() =~= pre.drop_last());
    } else {
        assert(cur.last() == pre.last());
        assert(forall|h: int|
            0 <= h < pre.drop_last().len() && h != g ==> cur.drop_last()[h]
                == pre.drop_last()[h]);
        lemma_members_add_member(pre.drop_last(), cur.drop_last(), g, p);
    }
}

/// Inserting a new single-member group adds exactly that member to the
/// concatenated members, as a multiset.
proof fn lemma_members_add_group(
    pre: Seq<(String, Vec<String>)>,
    cur: Seq<(String, Vec<String>)>,
    g: int,
    p: String,
)
    requires
        0 <= g <= pre.len(),
        cur == pre.insert(g, (cur[g].0, cur[g].1)),
        0 <= g < cur.len(),
        cur[g].1@ =~= seq![p],
    ensures
        spec_group_members(cur).to_multiset() =~= spec_group_members(pre).to_multiset().insert(p),
    decreases pre.len(),
{
    broadcast use vstd::seq_lib::group_to_multiset_ensures;
    broadcast use vstd::multiset::group_multiset_axioms;

    pre.insert_ensures(g, (cur[g].0, cur[g].1));
    vstd::seq_lib::lemma_multiset_commutative(spec_group_members(pre.drop_last()), pre.last().1@);
    vstd::seq_lib::lemma_multiset_commutative(spec_group_members(cur.drop_last()), cur.last().1@);
    if g == pre.len() {
        assert(cur.drop_last() =~= pre);
        assert(cur.last().1@ =~= seq![p]);
        assert(seq![p].to_multiset() =~= Multiset::<String>::empty().insert(p)) by {
            assert(seq![p] =~= Seq::<String>::empty().push(p));
        }
    } else {
        assert(cur.last() == pre.last());
        assert(cur.drop_last() =~= pre.drop_last().insert(g, (cur[g].0, cur[g].1)));
        pre.drop_last().insert_ensures(g, (cur[g].0, cur[g].1));
        lemma_members_add_group(pre.drop_last(), cur.drop_last(), g, p);
    }
}

/// Group files by their device key.  Groups come back sorted by key, each
/// key appears once, every group holds only files with that key, and the
/// files of one group are sorted by their case-folded names.
pub fn group_files_by_device(paths: &Vec<String>) -> (r: Vec<(String, Vec<String>)>)
    ensures
        forall|g: int, k: int|
            0 <= g < r@.len() && 0 <= k < (#[trigger] r@[g]).1@.len() ==> spec_device_key(
                #[trigger] r@[g].1@[k]@,
            ) == r@[g].0@,
        forall|g: int| 0 <= g < r@.len() ==> (#[trigger] r@[g]).1@.len() > 0,
        forall|g1: int, g2: int|
            0 <= g1 < g2 < r@.len() ==> lex_le((#[trigger] r@[g1]).0@, (#[trigger] r@[g2]).0@)
                && r@[g1].0@ != r@[g2].0@,
        forall|p: int| 0 <= p < paths@.len() ==> spec_in_groups(r@, #[trigger] paths@[p]),
        spec_group_members(r@).to_multiset() == paths@.to_multiset(),
        forall|g: int, a: int, b: int|
            0 <= g < r@.len() && 0 <= a < b < (#[trigger] r@[g]).1@.len() ==> lex_le(
                lower_seq(spec_file_name((#[trigger] r@[g].1@[a])@)),
                lower_seq(spec_file_name((#[trigger] r@[g].1@[b])@)),
            ),
{
    let mut groups: Vec<(String, Vec<String>)> = Vec::new();
    let n = paths.len();
    proof {
        assert(spec_group_members(groups@) =~= Seq::<String>::empty());
        assert(paths@.take(0) =~= Seq::<String>::empty());
    }
    let mut p: usize = 0;
    while p < n
        invariant
            n == paths@.len(),
            p <= n,
            forall|g: int, k: int|
                0 <= g < groups@.len() && 0 <= k < (#[trigger] groups@[g]).1@.len()
                    ==> spec_device_key(#[trigger] groups@[g].1@[k]@) == groups@[g].0@,
            forall|g: int| 0 <= g < groups@.len() ==> (#[trigger] groups@[g]).1@.len() > 0,
            forall|g1: int, g2: int|
                0 <= g1 < g2 < groups@.len() ==> lex_le(
                    (#[trigger] groups@[g1]).0@,
                    (#[trigger] groups@[g2]).0@,
                ) && groups@[g1].0@ != groups@[g2].0@,
            forall|q: int| 0 <= q < p ==> spec_in_groups(groups@, #[trigger] paths@[q]),
            spec_group_members(groups@).to_multiset() == paths@.take(p as int).to_multiset(),
            forall|g: int, a: int, b: int|
                0 <= g < groups@.len() && 0 <= a < b < (#[trigger] groups@[g]).1@.len() ==> lex_le(
                    lower_seq(spec_file_name((#[trigger] groups@[g].1@[a])@)),
                    lower_seq(spec_file_name((#[trigger] groups@[g].1@[b])@)),
                ),
        decreases n - p,
    {
        let ghost pre: Seq<(String, Vec<String>)> = groups@;
        let path: String = paths[p].clone();
        proof {
            assert(path == paths@[p as int]);
        }
        let key = device_key(path.as_str());
        // position of the first key not below ours
        let glen = groups.len();
        let mut g: usize = 0;
        while g < glen
            invariant
                g <= glen,
                glen == groups@.len(),
                groups@ == pre,
                forall|h: int| 0 <= h < g ==> !lex_le(key@, (#[trigger] groups@[h]).0@),
            ensures
                g <= glen,
                groups@ == pre,
                forall|h: int| 0 <= h < g ==> !lex_le(key@, (#[trigger] groups@[h]).0@),
                g < glen ==> lex_le(key@, groups@[g as int].0@),
            decreases glen - g,
        {
            if str_lex_le(key.as_str(), groups[g].0.as_str()) {
                break;
            }
            g = g + 1;
        }
        if g < glen && str_eq(groups[g].0.as_str(), key.as_str()) {
            // existing group: insert the path before the first member whose
            // folded name is not below ours
            let fname = file_name_of(path.as_str());
            let flow = to_ascii_lower(fname.as_str());
            let mlen = groups[g].1.len();
            let mut m: usize = 0;
            while m < mlen
                invariant
                    m <= mlen,
                    g < groups@.len(),
                    mlen == groups@[g as int].1@.len(),
                    groups@ == pre,
                    flow@ == lower_seq(spec_file_name(path@)),
                    forall|h: int|
                        0 <= h < m ==> !lex_le(
                            flow@,
                            lower_seq(spec_file_name((#[trigger] groups@[g as int].1@[h])@)),
                        ),
                ensures
                    m <= mlen,
                    groups@ == pre,
                    forall|h: int|
                        0 <= h < m ==> !lex_le(
                            flow@,
                            lower_seq(spec_file_name((#[trigger] groups@[g as int].1@[h])@)),
                        ),
                    m < mlen ==> lex_le(
                        flow@,
                        lower_seq(spec_file_name(groups@[g as int].1@[m as int]@)),
                    ),
                decreases mlen - m,
            {
                let member_name = file_name_of(groups[g].1[m].as_str());
                let member_low = to_ascii_lower(member_name.as_str());
                if str_lex_le(flow.as_str(), member_low.as_str()) {
                    break;
                }
                m = m + 1;
            }
            groups[g].1.insert(m, path);
            proof {
                broadcast use vstd::seq_lib::group_to_multiset_ensures;

                let cur = groups@;
                pre[g as int].1@.insert_ensures(m as int, paths@[p as int]);
                assert(cur[g as int].1@ == pre[g as int].1@.insert(m as int, paths@[p as int]));
                assert(cur[g as int].1@.to_multiset() == pre[g as int].1@.to_multiset().insert(
                    paths@[p as int],
                ));
                lemma_members_add_member(pre, cur, g as int, paths@[p as int]);
                assert(paths@.take(p + 1).drop_last() =~= paths@.take(p as int));
                assert(paths@.take(p + 1) =~= paths@.take(p as int).push(paths@[p as int]));
                assert(spec_group_members(cur).to_multiset() == paths@.take(p + 1).to_multiset());
                assert(cur[g as int].1@[m as int] == paths@[p as int]);
                assert(spec_device_key(paths@[p as int]@) == cur[g as int].0@);
                // membership of already-filed paths survives the insertion
                assert forall|q: int| 0 <= q < p + 1 implies spec_in_groups(
                    cur,
                    #[trigger] paths@[q],
                ) by {
                    if q < p {
                        let (wg, wk) = choose|wg: int, wk: int|
                            0 <= wg < pre.len() && 0 <= wk < pre[wg].1@.len() && pre[wg].1@[wk]
                                == paths@[q];
                        if wg != g {
                            assert(cur[wg].1@[wk] == paths@[q]);
                        } else if wk < m {
                            assert(cur[wg].1@[wk] == paths@[q]);
                        } else {
                            assert(cur[wg].1@[wk + 1] == paths@[q]);
                        }
                    } else {
                        assert(cur[g as int].1@[m as int] == paths@[q]);
                    }
                }
                // the group stays sorted by folded name
                assert forall|a: int, b: int|
                    0 <= a < b < cur[g as int].1@.len() implies lex_le(
                    lower_seq(spec_file_name((#[trigger] cur[g as int].1@[a])@)),
                    lower_seq(spec_file_name((#[trigger] cur[g as int].1@[b])@)),
                ) by {
                    let s = cur[g as int].1@;
                    let old_s = pre[g as int].1@;
                    if a == m {
                        // the inserted element sorts before everything that
                        // follows it
                        let ob = old_s[b - 1];
                        assert(s[b] == ob);
                        assert(lex_le(flow@, lower_seq(spec_file_name((old_s[m as int])@))));
                        if b - 1 > m {
                            assert(lex_le(
                                lower_seq(spec_file_name((old_s[m as int])@)),
                                lower_seq(spec_file_name(ob@)),
                            ));
                            lemma_lex_le_trans(
                                flow@,
                                lower_seq(spec_file_name((old_s[m as int])@)),
                                lower_seq(spec_file_name(ob@)),
                            );
                        }
                    } else if b == m {
                        let oa = old_s[a];
                        assert(s[a] == oa);
                        assert(!lex_le(flow@, lower_seq(spec_file_name(oa@))));
                        lemma_lex_le_total(flow@, lower_seq(spec_file_name(oa@)));
                    } else {
                        let oa = if a < m {
                            old_s[a]
                        } else {
                            old_s[a - 1]
                        };
                        let ob = if b < m {
                            old_s[b]
                        } else {
                            old_s[b - 1]
                        };
                        assert(s[a] == oa && s[b] == ob);
                    }
                }
            }
        } else {
            // new group at the sorted position
            proof {
                assert(g < glen ==> key@ != groups@[g as int].0@);
            }
            let mut members: Vec<String> = Vec::new();
            members.push(path);
            groups.insert(g, (key, members));
            proof {
                broadcast use vstd::seq_lib::group_to_multiset_ensures;

                let cur = groups@;
                pre.insert_ensures(g as int, (key, members));
                assert(cur == pre.insert(g as int, (key, members)));
                assert(cur[g as int].1@ =~= seq![paths@[p as int]]);
                lemma_members_add_group(pre, cur, g as int, paths@[p as int]);
                assert(paths@.take(p + 1) =~= paths@.take(p as int).push(paths@[p as int]));
                assert(spec_group_members(cur).to_multiset() == paths@.take(p + 1).to_multiset());
                assert(cur[g as int].1@[0] == paths@[p as int]);
                // keys stay strictly sorted
                assert forall|g1: int, g2: int|
                    0 <= g1 < g2 < cur.len() implies lex_le(
                    (#[trigger] cur[g1]).0@,
                    (#[trigger] cur[g2]).0@,
                ) && cur[g1].0@ != cur[g2].0@ by {
                    if g1 == g {
                        let o2 = pre[g2 - 1];
                        assert(cur[g2] == o2);
                        assert(g < pre.len());
                        assert(lex_le(key@, pre[g as int].0@));
                        assert(key@ != pre[g as int].0@);
                        if g2 - 1 > g {
                            assert(lex_le(pre[g as int].0@, o2.0@) && pre[g as int].0@ != o2.0@);
                            lemma_lex_le_trans(key@, pre[g as int].0@, o2.0@);
                            if key@ == o2.0@ {
                                crate::text::lemma_lex_le_antisym(key@, pre[g as int].0@);
                            }
                        }
                    } else if g2 == g {
                        let o1 = pre[g1];
                        assert(cur[g1] == o1);
                        assert(!lex_le(key@, o1.0@));
                        lemma_lex_le_total(key@, o1.0@);
                        assert(lex_le(o1.0@, key@));
                        assert(o1.0@ != key@);
                    } else {
                        let o1 = if g1 < g {
                            pre[g1]
                        } else {
                            pre[g1 - 1]
                        };
                        let o2 = if g2 < g {
                            pre[g2]
                        } else {
                            pre[g2 - 1]
                        };
                        assert(cur[g1] == o1 && cur[g2] == o2);
                    }
                }
                // membership survives
                assert forall|q: int| 0 <= q < p + 1 implies spec_in_groups(
                    cur,
                    #[trigger] paths@[q],
                ) by {
                    if q < p {
                        let (wg, wk) = choose|wg: int, wk: int|
                            0 <= wg < pre.len() && 0 <= wk < pre[wg].1@.len() && pre[wg].1@[wk]
                                == paths@[q];
                        if wg < g {
                            assert(cur[wg].1@[wk] == paths@[q]);
                        } else {
                            assert(cur[wg + 1].1@[wk] == paths@[q]);
                        }
                    } else {
                        assert(cur[g as int].1@[0] == paths@[q]);
                    }
                }
            }
        }
        p = p + 1;
    }
    proof {
        assert(paths@.take(n as int) =~= paths@);
    }
    groups
}

} // verus!
