//! A blocklist of domains, read from user input, that decides which links
//! are left out.

use vstd::prelude::*;
use crate::text::{is_separator, lemma_split_fields_concat, split_fields, trim, lowercase, trim_str, to_lowercase, str_eq};
use crate::web::{parsed_host, url_host};

verus! {

/// The blocklist entries that the input fields give: each field trimmed and
/// lowercased, the empty ones left out, in input order.
pub open spec fn blocklist_of_fields(fields: Seq<Seq<char>>) -> Seq<Seq<char>>
    decreases fields.len(),
{
    if fields.len() == 0 {
        Seq::<Seq<char>>::empty()
    } else {
        let rest = blocklist_of_fields(fields.drop_last());
        let entry = lowercase(trim(fields.last()));
        if entry.len() > 0 {
            rest.push(entry)
        } else {
            rest
        }
    }
}

/// The blocklist that an input text gives: its comma-, full-width-comma- or
/// newline-separated fields, trimmed, lowercased, empty ones left out.
pub open spec fn parse_blocklist(input: Seq<char>) -> Seq<Seq<char>> {
    blocklist_of_fields(split_fields(input))
}

/// Whether every field of the input text is blank once trimmed.
pub open spec fn all_fields_blank(input: Seq<char>) -> bool {
    forall|k: int| 0 <= k < split_fields(input).len() ==> #[trigger] trim(split_fields(input)[k]).len() == 0
}

/// Whether `d` is a wildcard entry, `*.` followed by a base domain.
pub open spec fn is_wildcard(d: Seq<char>) -> bool {
    d.len() >= 2 && d[0] == '*' && d[1] == '.'
}

/// Whether `host` ends with a dot followed by `d`.
pub open spec fn dotted_suffix(host: Seq<char>, d: Seq<char>) -> bool {
    &&& host.len() >= d.len() + 1
    &&& host[host.len() - d.len() - 1] == '.'
    &&& host.subrange(host.len() - d.len(), host.len() as int) == d
}

/// Whether the entry `d` blocks the (lowercase) host `host`: a wildcard
/// `*.base` blocks `base` and every name ending in `.base`; any other
/// non-empty entry blocks itself and every name below it (a non-empty label
/// sequence, a dot, then the entry).
pub open spec fn entry_blocks(d: Seq<char>, host: Seq<char>) -> bool {
    if is_wildcard(d) {
        let base = d.skip(2);
        host == base || dotted_suffix(host, base)
    } else {
        d.len() > 0 && (host == d || (dotted_suffix(host, d) && host.len() > d.len() + 1))
    }
}

/// Whether some entry of `list` blocks `host`.
pub open spec fn blocks_host(list: Seq<Seq<char>>, host: Seq<char>) -> bool {
    exists|i: int| 0 <= i < list.len() && entry_blocks(#[trigger] list[i], host)
}

/// Whether `list` filters the link `url`: the list is not empty, `url`
/// parses with a host, and some entry blocks that host in lowercase.
pub open spec fn blocks_url(list: Seq<Seq<char>>, url: Seq<char>) -> bool {
    list.len() > 0 && match parsed_host(url) {
        Ok(Some(h)) => blocks_host(list, lowercase(h)),
        _ => false,
    }
}

/// A blocklist of domains: links whose host is one of them, or lies below
/// one of them, are filtered out.
pub struct DomainFilter {
    blocked_domains: Vec<String>,
}

impl View for DomainFilter {
    type V = Seq<Seq<char>>;

    closed spec fn view(&self) -> Seq<Seq<char>> {
        self.blocked_domains@.map_values(|d: String| d@)
    }
}

/// Whether `host` ends with `.` and then `d`.
fn has_dotted_suffix(host: &str, d: &str) -> (r: bool)
    ensures
        r == dotted_suffix(host@, d@),
{
    let hl = host.unicode_len();
    let dl = d.unicode_len();
    if hl <= dl {
        return false;
    }
    if host.get_char(hl - dl - 1) != '.' {
        return false;
    }
    str_eq(host.substring_char(hl - dl, hl), d)
}

/// Whether the entry `d` blocks the host `host` (see `entry_blocks`).
pub fn entry_blocks_host(d: &str, host: &str) -> (r: bool)
    ensures
        r == entry_blocks(d@, host@),
{
    let dl = d.unicode_len();
    if dl >= 2 && d.get_char(0) == '*' && d.get_char(1) == '.' {
        let base = d.substring_char(2, dl);
        assert(base@ =~= d@.skip(2));
        str_eq(host, base) || has_dotted_suffix(host, base)
    } else if dl > 0 {
        if str_eq(host, d) {
            return true;
        }
        has_dotted_suffix(host, d) && host.unicode_len() > dl + 1
    } else {
        false
    }
}

impl DomainFilter {
    /// Reads a blocklist from `input`: entries separated by commas
    /// (ASCII or full-width) or newlines, trimmed and lowercased, the empty
    /// ones left out.
    pub fn new(input: &str) -> (f: Self)
        ensures
            f@ == parse_blocklist(input@),
            f@.len() == 0 <==> all_fields_blank(input@),
            (forall|k: int| 0 <= k < input@.len() ==> !is_separator(#[trigger] input@[k])) && trim(input@).len() > 0
                ==> f@ == seq![lowercase(trim(input@))],
    {
        let n = input.unicode_len();
        let mut domains: Vec<String> = Vec::new();
        let mut start: usize = 0;
        let mut i: usize = 0;
        proof {
            assert(input@.take(0) =~= Seq::<char>::empty());
            assert(blocklist_of_fields(Seq::<Seq<char>>::empty()) =~= Seq::<Seq<char>>::empty());
            assert(split_fields(input@.take(0)).drop_last() =~= Seq::<Seq<char>>::empty());
            assert(domains@.map_values(|d: String| d@) =~= Seq::<Seq<char>>::empty());
        }
        while i < n
            invariant
                n == input@.len(),
                start <= i <= n,
                domains@.map_values(|d: String| d@) == blocklist_of_fields(
                    split_fields(input@.take(i as int)).drop_last(),
                ),
                split_fields(input@.take(i as int)).len() >= 1,
                split_fields(input@.take(i as int)).last() == input@.subrange(start as int, i as int),
                domains@.len() == 0 <==> forall|k: int| 0 <= k < split_fields(input@.take(i as int)).len() - 1
                    ==> #[trigger] trim(split_fields(input@.take(i as int))[k]).len() == 0,
            decreases n - i,
        {
            let c = input.get_char(i);
            let ghost prev = split_fields(input@.take(i as int));
            assert(input@.take(i + 1).drop_last() =~= input@.take(i as int));
            assert(input@.take(i + 1).last() == c);
            if c == ',' || c == '，' || c == '\n' {
                let field = input.substring_char(start, i);
                let trimmed = trim_str(field);
                let entry = to_lowercase(trimmed.as_str());
                let ghost before = domains@.map_values(|d: String| d@);
                if entry.unicode_len() > 0 {
                    domains.push(entry);
                    assert(domains@.map_values(|d: String| d@) =~= before.push(entry@));
                }
                proof {
                    let next = split_fields(input@.take(i + 1));
                    assert(next == prev.push(Seq::<char>::empty()));
                    assert(next.drop_last() =~= prev);
                    assert(prev.drop_last().push(prev.last()) =~= prev);
                    assert(trimmed@ == trim(prev.last()));
                    assert forall|k: int| 0 <= k < next.len() - 1 implies #[trigger] next[k] == prev[k] by {}
                    let blank_now = forall|k: int| 0 <= k < next.len() - 1 ==> #[trigger] trim(next[k]).len() == 0;
                    let blank_before = forall|k: int| 0 <= k < prev.len() - 1 ==> #[trigger] trim(prev[k]).len() == 0;
                    if blank_now {
                        assert(blank_before) by {
                            assert forall|k: int| 0 <= k < prev.len() - 1 implies #[trigger] trim(prev[k]).len() == 0 by {
                                assert(trim(next[k]).len() == 0);
                            }
                        }
                        assert(trim(next[prev.len() - 1]).len() == 0);
                    }
                    if blank_before && trim(prev.last()).len() == 0 {
                        assert forall|k: int| 0 <= k < next.len() - 1 implies #[trigger] trim(next[k]).len() == 0 by {
                            if k < prev.len() - 1 {
                                assert(trim(prev[k]).len() == 0);
                            }
                        }
                    }
                }
                start = i + 1;
                assert(input@.subrange(start as int, start as int) =~= Seq::<char>::empty());
            } else {
                proof {
                    let next = split_fields(input@.take(i + 1));
                    assert(next.drop_last() =~= prev.drop_last());
                    assert(next.last() =~= input@.subrange(start as int, i + 1));
                    assert forall|k: int| 0 <= k < next.len() - 1 implies #[trigger] next[k] == prev[k] by {
                        assert(next.drop_last()[k] == prev.drop_last()[k]);
                    }
                    assert(next.len() == prev.len());
                    if forall|k: int| 0 <= k < next.len() - 1 ==> #[trigger] trim(next[k]).len() == 0 {
                        assert forall|k: int| 0 <= k < prev.len() - 1 implies #[trigger] trim(prev[k]).len() == 0 by {
                            assert(trim(next[k]).len() == 0);
                        }
                    }
                    if forall|k: int| 0 <= k < prev.len() - 1 ==> #[trigger] trim(prev[k]).len() == 0 {
                        assert forall|k: int| 0 <= k < next.len() - 1 implies #[trigger] trim(next[k]).len() == 0 by {
                            assert(trim(prev[k]).len() == 0);
                        }
                    }
                }
            }
            i = i + 1;
        }
        let field = input.substring_char(start, n);
        let trimmed = trim_str(field);
        let entry = to_lowercase(trimmed.as_str());
        let ghost before = domains@.map_values(|d: String| d@);
        if entry.unicode_len() > 0 {
            domains.push(entry);
            assert(domains@.map_values(|d: String| d@) =~= before.push(entry@));
        }
        proof {
            let all = split_fields(input@.take(n as int));
            assert(input@.take(n as int) =~= input@);
            assert(all.drop_last().push(all.last()) =~= all);
            assert(trimmed@ == trim(all.last()));
            let blank_all = forall|k: int| 0 <= k < all.len() ==> #[trigger] trim(all[k]).len() == 0;
            if !blank_all {
                let k = choose|k: int| 0 <= k < all.len() && #[trigger] trim(all[k]).len() != 0;
                if k < all.len() - 1 {
                    assert(trim(all[k]).len() != 0);
                }
            }
            assert(all_fields_blank(input@) == blank_all);
            if (forall|k: int| 0 <= k < input@.len() ==> !is_separator(#[trigger] input@[k])) && trim(input@).len() > 0 {
                lemma_split_without_separator(input@);
                assert(all.len() == 1 && all[0] == input@);
                assert(!all_fields_blank(input@));
                assert(trimmed@ == trim(input@));
                assert(entry@.len() > 0);
                law_single_field_is_its_lowercase_trim(input@);
            }
        }
        DomainFilter { blocked_domains: domains }
    }

    /// Whether some entry blocks `host`, a host name already in lowercase.
    pub fn matches_host(&self, host: &str) -> (r: bool)
        ensures
            r == blocks_host(self@, host@),
    {
        let n = self.blocked_domains.len();
        let mut k: usize = 0;
        while k < n
            invariant
                n == self.blocked_domains@.len(),
                k <= n,
                forall|j: int| 0 <= j < k ==> !entry_blocks(#[trigger] self@[j], host@),
            decreases n - k,
        {
            if entry_blocks_host(self.blocked_domains[k].as_str(), host) {
                assert(entry_blocks(self@[k as int], host@));
                return true;
            }
            k = k + 1;
        }
        false
    }

    /// Whether the link `url` is filtered out: it parses with a host that
    /// some entry blocks (compared in lowercase).  An empty blocklist
    /// filters nothing.
    pub fn should_filter(&self, url: &str) -> (r: bool)
        ensures
            r == blocks_url(self@, url@),
    {
        if self.blocked_domains.len() == 0 {
            return false;
        }
        match url_host(url) {
            Ok(Some(host)) => {
                let host_lower = to_lowercase(host.as_str());
                self.matches_host(host_lower.as_str())
            },
            _ => false,
        }
    }

    /// Whether the blocklist has no entries.
    pub fn is_empty(&self) -> (r: bool)
        ensures
            r == (self@.len() == 0),
    {
        self.blocked_domains.len() == 0
    }
}


proof fn lemma_blocklist_of_fields_concat(a: Seq<Seq<char>>, b: Seq<Seq<char>>)
    ensures
        blocklist_of_fields(a + b) == blocklist_of_fields(a) + blocklist_of_fields(b),
    decreases b.len(),
{
    if b.len() == 0 {
        assert(a + b =~= a);
        assert(blocklist_of_fields(a) + blocklist_of_fields(b) =~= blocklist_of_fields(a));
    } else {
        lemma_blocklist_of_fields_concat(a, b.drop_last());
        assert((a + b).drop_last() =~= a + b.drop_last());
        assert((a + b).last() == b.last());
        assert(blocklist_of_fields(a + b) =~= blocklist_of_fields(a) + blocklist_of_fields(b));
    }
}

/// Separators split the blocklist: the entries read from `a`, a comma
/// (ASCII or full-width) or newline, and `b` are those read from `a`
/// followed by those read from `b`, whichever separator stands between.
pub proof fn law_separated_input_concatenates(a: Seq<char>, sep: char, b: Seq<char>)
    requires
        is_separator(sep),
    ensures
        parse_blocklist(a + seq![sep] + b) == parse_blocklist(a) + parse_blocklist(b),
{
    lemma_split_fields_concat(a, sep, b);
    lemma_blocklist_of_fields_concat(split_fields(a), split_fields(b));
}

/// Every entry read from an input is non-empty.
pub proof fn law_entries_are_nonempty(input: Seq<char>)
    ensures
        forall|i: int| 0 <= i < parse_blocklist(input).len() ==> #[trigger] parse_blocklist(input)[i].len() > 0,
{
    lemma_entries_nonempty(split_fields(input));
}

proof fn lemma_entries_nonempty(fields: Seq<Seq<char>>)
    ensures
        forall|i: int| 0 <= i < blocklist_of_fields(fields).len() ==> #[trigger] blocklist_of_fields(fields)[i].len() > 0,
    decreases fields.len(),
{
    if fields.len() > 0 {
        lemma_entries_nonempty(fields.drop_last());
        let rest = blocklist_of_fields(fields.drop_last());
        assert forall|i: int| 0 <= i < blocklist_of_fields(fields).len() implies #[trigger] blocklist_of_fields(fields)[i].len() > 0 by {
            if i < rest.len() {
                assert(blocklist_of_fields(fields)[i] == rest[i]);
            }
        }
    }
}

/// A host is blocked by the list read from `a`, a separator and `b` exactly
/// when the list read from `a` or the one read from `b` blocks it: entries
/// act independently of each other and of their order.
pub proof fn law_blocking_is_union_of_parts(a: Seq<char>, sep: char, b: Seq<char>, host: Seq<char>)
    requires
        is_separator(sep),
    ensures
        blocks_host(parse_blocklist(a + seq![sep] + b), host)
            <==> (blocks_host(parse_blocklist(a), host) || blocks_host(parse_blocklist(b), host)),
{
    law_separated_input_concatenates(a, sep, b);
    let la = parse_blocklist(a);
    let lb = parse_blocklist(b);
    let l = la + lb;
    if blocks_host(l, host) {
        let i = choose|i: int| 0 <= i < l.len() && entry_blocks(#[trigger] l[i], host);
        if i < la.len() {
            assert(l[i] == la[i]);
        } else {
            assert(l[i] == lb[i - la.len()]);
        }
    }
    if blocks_host(la, host) {
        let i = choose|i: int| 0 <= i < la.len() && entry_blocks(#[trigger] la[i], host);
        assert(l[i] == la[i]);
    }
    if blocks_host(lb, host) {
        let i = choose|i: int| 0 <= i < lb.len() && entry_blocks(#[trigger] lb[i], host);
        assert(l[la.len() + i] == lb[i]);
    }
}

/// A plain entry blocks its own host name and every name below it: any
/// non-empty prefix, a dot, then the entry.
pub proof fn law_plain_entry_blocks_domain_and_subdomains(list: Seq<Seq<char>>, i: int, prefix: Seq<char>)
    requires
        0 <= i < list.len(),
        list[i].len() > 0,
        !is_wildcard(list[i]),
        prefix.len() > 0,
    ensures
        blocks_host(list, list[i]),
        blocks_host(list, prefix + seq!['.'] + list[i]),
{
    let d = list[i];
    let host = prefix + seq!['.'] + d;
    assert(host[host.len() - d.len() - 1] == '.');
    assert(host.subrange(host.len() - d.len(), host.len() as int) =~= d);
    assert(entry_blocks(list[i], host));
    assert(entry_blocks(list[i], d));
}

/// A wildcard entry `*.base` blocks `base` itself and every name that ends
/// in `.base`.
pub proof fn law_wildcard_entry_blocks_base_and_subdomains(list: Seq<Seq<char>>, i: int, prefix: Seq<char>)
    requires
        0 <= i < list.len(),
        is_wildcard(list[i]),
    ensures
        blocks_host(list, list[i].skip(2)),
        blocks_host(list, prefix + seq!['.'] + list[i].skip(2)),
{
    let base = list[i].skip(2);
    let host = prefix + seq!['.'] + base;
    assert(host[host.len() - base.len() - 1] == '.');
    assert(host.subrange(host.len() - base.len(), host.len() as int) =~= base);
    assert(entry_blocks(list[i], host));
    assert(entry_blocks(list[i], base));
}

/// A host that neither equals an entry nor ends with a dot and an entry (or
/// with a dot and a wildcard's base) is not blocked: nothing else counts.
pub proof fn law_unrelated_host_is_not_blocked(list: Seq<Seq<char>>, host: Seq<char>)
    requires
        forall|i: int| 0 <= i < list.len() ==> {
            let d = if is_wildcard(#[trigger] list[i]) { list[i].skip(2) } else { list[i] };
            host != d && !dotted_suffix(host, d)
        },
    ensures
        !blocks_host(list, host),
{
}

/// An empty blocklist filters no link.
pub proof fn law_empty_blocklist_filters_nothing(list: Seq<Seq<char>>, url: Seq<char>)
    requires
        list.len() == 0,
    ensures
        !blocks_url(list, url),
{
}


/// Whether a URL is filtered depends on its host alone: two URLs that parse
/// to the same host (whatever their scheme, path or query) are filtered
/// alike.
pub proof fn law_filtering_depends_only_on_host(list: Seq<Seq<char>>, u1: Seq<char>, u2: Seq<char>)
    requires
        parsed_host(u1) == parsed_host(u2),
    ensures
        blocks_url(list, u1) == blocks_url(list, u2),
{
}

/// A URL whose host, in lowercase, some entry blocks is filtered, whatever
/// else the URL holds.
pub proof fn law_url_on_blocked_host_is_filtered(list: Seq<Seq<char>>, url: Seq<char>, host: Seq<char>)
    requires
        parsed_host(url) == Ok::<Option<Seq<char>>, Seq<char>>(Some(host)),
        blocks_host(list, lowercase(host)),
    ensures
        blocks_url(list, url),
{
}

/// A URL whose host no entry blocks, and a URL without a host, are not
/// filtered.
pub proof fn law_url_off_the_blocklist_passes(list: Seq<Seq<char>>, url: Seq<char>)
    requires
        forall|h: Seq<char>| parsed_host(url) == Ok::<Option<Seq<char>>, Seq<char>>(Some(h))
            ==> !blocks_host(list, lowercase(h)),
    ensures
        !blocks_url(list, url),
{
    if let Ok(Some(h)) = parsed_host(url) {
        assert(!blocks_host(list, lowercase(h)));
    }
}

/// Text without separators is one field.
pub proof fn lemma_split_without_separator(s: Seq<char>)
    requires
        forall|k: int| 0 <= k < s.len() ==> !is_separator(#[trigger] s[k]),
    ensures
        split_fields(s) == seq![s],
    decreases s.len(),
{
    if s.len() > 0 {
        assert forall|k: int| 0 <= k < s.drop_last().len() implies !is_separator(#[trigger] s.drop_last()[k]) by {
            assert(s.drop_last()[k] == s[k]);
        }
        lemma_split_without_separator(s.drop_last());
        assert(s.drop_last().push(s.last()) =~= s);
        assert(split_fields(s) =~= seq![s]);
    } else {
        assert(s =~= Seq::<char>::empty());
    }
}

/// An input of one field gives one entry, the field trimmed and lowercased
/// and nothing else, when that is not blank.
pub proof fn law_single_field_is_its_lowercase_trim(f: Seq<char>)
    requires
        forall|k: int| 0 <= k < f.len() ==> !is_separator(#[trigger] f[k]),
        lowercase(trim(f)).len() > 0,
    ensures
        parse_blocklist(f) == seq![lowercase(trim(f))],
{
    lemma_split_without_separator(f);
    let fields = seq![f];
    assert(fields.drop_last() =~= Seq::<Seq<char>>::empty());
    assert(blocklist_of_fields(Seq::<Seq<char>>::empty()) =~= Seq::<Seq<char>>::empty());
    assert(Seq::<Seq<char>>::empty().push(lowercase(trim(f))) =~= seq![lowercase(trim(f))]);
}

/// Each entry is some field of the input, trimmed and lowercased; and each
/// field that is not blank once trimmed and lowercased is an entry.
pub proof fn law_entries_are_the_lowercase_trimmed_fields(input: Seq<char>)
    ensures
        forall|i: int| 0 <= i < parse_blocklist(input).len() ==> exists|k: int|
            0 <= k < split_fields(input).len()
                && #[trigger] parse_blocklist(input)[i] == lowercase(trim(#[trigger] split_fields(input)[k])),
        forall|k: int| 0 <= k < split_fields(input).len() && lowercase(trim(#[trigger] split_fields(input)[k])).len() > 0
            ==> parse_blocklist(input).contains(lowercase(trim(split_fields(input)[k]))),
{
    lemma_entries_come_from_fields(split_fields(input));
}

proof fn lemma_entries_come_from_fields(fields: Seq<Seq<char>>)
    ensures
        forall|i: int| 0 <= i < blocklist_of_fields(fields).len() ==> exists|k: int|
            0 <= k < fields.len() && #[trigger] blocklist_of_fields(fields)[i] == lowercase(trim(#[trigger] fields[k])),
        forall|k: int| 0 <= k < fields.len() && lowercase(trim(#[trigger] fields[k])).len() > 0
            ==> blocklist_of_fields(fields).contains(lowercase(trim(fields[k]))),
    decreases fields.len(),
{
    if fields.len() > 0 {
        let prev = fields.drop_last();
        lemma_entries_come_from_fields(prev);
        let rest = blocklist_of_fields(prev);
        let cur = blocklist_of_fields(fields);
        let entry = lowercase(trim(fields.last()));
        assert forall|i: int| 0 <= i < cur.len() implies exists|k: int|
            0 <= k < fields.len() && #[trigger] cur[i] == lowercase(trim(#[trigger] fields[k])) by {
            if i < rest.len() {
                assert(cur[i] == rest[i]);
                let k = choose|k: int| 0 <= k < prev.len() && #[trigger] rest[i] == lowercase(trim(#[trigger] prev[k]));
                assert(fields[k] == prev[k]);
            } else {
                assert(cur[i] == entry);
                assert(fields[fields.len() - 1] == fields.last());
            }
        }
        assert forall|k: int| 0 <= k < fields.len() && lowercase(trim(#[trigger] fields[k])).len() > 0
            implies cur.contains(lowercase(trim(fields[k]))) by {
            if k < prev.len() {
                assert(fields[k] == prev[k]);
                assert(rest.contains(lowercase(trim(prev[k]))));
                let j = choose|j: int| 0 <= j < rest.len() && rest[j] == lowercase(trim(prev[k]));
                assert(cur[j] == rest[j]);
            } else {
                assert(cur[cur.len() - 1] == entry);
            }
        }
    }
}


proof fn lemma_dotted_suffix_iff(host: Seq<char>, d: Seq<char>)
    ensures
        dotted_suffix(host, d) <==> exists|p: Seq<char>| host == p + seq!['.'] + d,
        dotted_suffix(host, d) ==> host == host.take(host.len() - d.len() - 1) + seq!['.'] + d,
{
    if dotted_suffix(host, d) {
        let p = host.take(host.len() - d.len() - 1);
        assert(host =~= p + seq!['.'] + d);
    }
    if exists|p: Seq<char>| host == p + seq!['.'] + d {
        let p = choose|p: Seq<char>| host == p + seq!['.'] + d;
        assert(host[host.len() - d.len() - 1] == '.');
        assert(host.subrange(host.len() - d.len(), host.len() as int) =~= d);
    }
}

/// What a plain (non-wildcard) entry blocks, exactly: the entry itself and
/// every name made of a non-empty prefix, a dot and the entry; nothing else.
pub proof fn law_plain_entry_blocks_exactly(d: Seq<char>, host: Seq<char>)
    requires
        d.len() > 0,
        !is_wildcard(d),
    ensures
        entry_blocks(d, host) <==> (host == d || exists|p: Seq<char>| p.len() > 0 && host == p + seq!['.'] + d),
{
    lemma_dotted_suffix_iff(host, d);
    if exists|p: Seq<char>| p.len() > 0 && host == p + seq!['.'] + d {
        let p = choose|p: Seq<char>| p.len() > 0 && host == p + seq!['.'] + d;
        assert(host.len() == p.len() + 1 + d.len());
        assert(dotted_suffix(host, d));
    }
    if dotted_suffix(host, d) && host.len() > d.len() + 1 {
        let p = host.take(host.len() - d.len() - 1);
        assert(p.len() > 0 && host == p + seq!['.'] + d);
    }
}

/// What a wildcard entry `*.base` blocks, exactly: `base` itself and every
/// name that ends in a dot and `base`; nothing else.
pub proof fn law_wildcard_entry_blocks_exactly(base: Seq<char>, host: Seq<char>)
    ensures
        is_wildcard(seq!['*', '.'] + base),
        entry_blocks(seq!['*', '.'] + base, host) <==> (host == base || exists|p: Seq<char>| host == p + seq!['.'] + base),
{
    let d = seq!['*', '.'] + base;
    assert(d.skip(2) =~= base);
    lemma_dotted_suffix_iff(host, base);
}

/// A host is blocked exactly when some entry blocks it.
pub proof fn law_blocked_host_has_a_blocking_entry(list: Seq<Seq<char>>, host: Seq<char>)
    ensures
        blocks_host(list, host) <==> exists|i: int| 0 <= i < list.len() && entry_blocks(#[trigger] list[i], host),
{
}

/// The ASCII comma, the full-width comma and the newline each separate
/// entries: an input holding two texts separated by any of them reads as
/// the entries of the first followed by those of the second.
pub proof fn law_commas_and_newlines_separate_entries(a: Seq<char>, b: Seq<char>)
    ensures
        parse_blocklist(a + seq![','] + b) == parse_blocklist(a) + parse_blocklist(b),
        parse_blocklist(a + seq!['，'] + b) == parse_blocklist(a) + parse_blocklist(b),
        parse_blocklist(a + seq!['\n'] + b) == parse_blocklist(a) + parse_blocklist(b),
{
    law_separated_input_concatenates(a, ',', b);
    law_separated_input_concatenates(a, '，', b);
    law_separated_input_concatenates(a, '\n', b);
}

} // verus!
