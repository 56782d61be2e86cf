//! The key-value configuration store: parses a flat `key<delimiter>value`
//! text into a mapping. The caller reads the file and hands its bytes in.
use vstd::prelude::*;

use crate::text::sub_bytes;

verus! {

/// The delimiter between a key and its value in a configuration line.
pub const CONFIG_FILE_DELIMITER: u8 = 61;

/// The byte that ends a configuration line.
pub const BYTE_NEWLINE: u8 = 10;

/// ASCII whitespace, trimmed off both ends of a line: space, tab, vertical
/// tab, form feed and carriage return. Multi-byte Unicode whitespace is not
/// trimmed; lines themselves are split on the newline byte before trimming.
pub open spec fn is_space(b: u8) -> bool {
    b == 32 || b == 9 || b == 11 || b == 12 || b == 13
}

pub open spec fn trim_start(s: Seq<u8>) -> Seq<u8>
    decreases s.len(),
{
    if s.len() > 0 && is_space(s[0]) {
        trim_start(s.drop_first())
    } else {
        s
    }
}

pub open spec fn trim_end(s: Seq<u8>) -> Seq<u8>
    decreases s.len(),
{
    if s.len() > 0 && is_space(s.last()) {
        trim_end(s.drop_last())
    } else {
        s
    }
}

/// A line with ASCII whitespace removed from both ends.
pub open spec fn trimmed(s: Seq<u8>) -> Seq<u8> {
    trim_end(trim_start(s))
}

/// The index of the first `b` in `s`, if any.
pub open spec fn find_byte(s: Seq<u8>, b: u8) -> Option<int>
    decreases s.len(),
{
    if s.len() == 0 {
        None
    } else if s[0] == b {
        Some(0)
    } else {
        match find_byte(s.drop_first(), b) {
            Some(i) => Some(i + 1),
            None => None,
        }
    }
}

/// `find_byte` names the first occurrence: in bounds, hitting `b`, with no
/// `b` before it; `None` means no occurrence at all.
pub proof fn lemma_find_byte_first(s: Seq<u8>, b: u8)
    ensures
        find_byte(s, b) matches Some(i) ==> 0 <= i < s.len() && s[i] == b && (forall|j: int|
            0 <= j < i ==> s[j] != b),
        find_byte(s, b) is None ==> forall|j: int| 0 <= j < s.len() ==> s[j] != b,
    decreases s.len(),
{
    if s.len() == 0 {
    } else if s[0] == b {
    } else {
        let rest = s.drop_first();
        lemma_find_byte_first(rest, b);
        match find_byte(rest, b) {
            Some(i) => {
                assert(rest[i] == s[i + 1]);
                assert forall|j: int| 0 <= j < i + 1 implies s[j] != b by {
                    if j > 0 {
                        assert(s[j] == rest[j - 1]);
                    }
                }
            },
            None => {
                assert forall|j: int| 0 <= j < s.len() implies s[j] != b by {
                    if j > 0 {
                        assert(s[j] == rest[j - 1]);
                    }
                }
            },
        }
    }
}

/// The key-value pair a single line yields: the trimmed line split at the
/// first delimiter; a line without the delimiter yields nothing.
pub open spec fn line_pair(line: Seq<u8>, delimiter: u8) -> Option<(Seq<u8>, Seq<u8>)> {
    let t = trimmed(line);
    match find_byte(t, delimiter) {
        Some(i) => Some((t.subrange(0, i), t.subrange(i + 1, t.len() as int))),
        None => None,
    }
}

pub open spec fn opt_pair_seq(p: Option<(Seq<u8>, Seq<u8>)>) -> Seq<(Seq<u8>, Seq<u8>)> {
    match p {
        Some(kv) => seq![kv],
        None => Seq::empty(),
    }
}

#[via_fn]
proof fn parse_pairs_decreases(text: Seq<u8>, delimiter: u8) {
    lemma_find_byte_first(text, BYTE_NEWLINE);
}

/// Every key-value pair in the text, line by line, in line order.
pub open spec fn parse_pairs(text: Seq<u8>, delimiter: u8) -> Seq<(Seq<u8>, Seq<u8>)>
    decreases text.len(),
    via parse_pairs_decreases
{
    match find_byte(text, BYTE_NEWLINE) {
        Some(i) => opt_pair_seq(line_pair(text.subrange(0, i), delimiter)) + parse_pairs(
            text.subrange(i + 1, text.len() as int),
            delimiter,
        ),
        None => opt_pair_seq(line_pair(text, delimiter)),
    }
}

/// The mapping the pairs build up, a later pair overriding an earlier one
/// with the same key.
pub open spec fn kv_map(pairs: Seq<(Seq<u8>, Seq<u8>)>) -> Map<Seq<u8>, Seq<u8>>
    decreases pairs.len(),
{
    if pairs.len() == 0 {
        Map::empty()
    } else {
        kv_map(pairs.drop_last()).insert(pairs.last().0, pairs.last().1)
    }
}

pub proof fn lemma_kv_map_last_match(
    pairs: Seq<(Seq<u8>, Seq<u8>)>,
    name: Seq<u8>,
    i: int,
)
    requires
        0 <= i < pairs.len(),
        pairs[i].0 == name,
        forall|k: int| i < k < pairs.len() ==> pairs[k].0 != name,
    ensures
        kv_map(pairs).contains_key(name),
        kv_map(pairs)[name] == pairs[i].1,
    decreases pairs.len(),
{
    if i == pairs.len() - 1 {
    } else {
        lemma_kv_map_last_match(pairs.drop_last(), name, i);
    }
}

pub proof fn lemma_kv_map_no_match(pairs: Seq<(Seq<u8>, Seq<u8>)>, name: Seq<u8>)
    requires
        forall|k: int| 0 <= k < pairs.len() ==> pairs[k].0 != name,
    ensures
        !kv_map(pairs).contains_key(name),
    decreases pairs.len(),
{
    if pairs.len() > 0 {
        lemma_kv_map_no_match(pairs.drop_last(), name);
    }
}

pub open spec fn pairs_view(values: Seq<(Vec<u8>, Vec<u8>)>) -> Seq<(Seq<u8>, Seq<u8>)> {
    values.map_values(|p: (Vec<u8>, Vec<u8>)| (p.0@, p.1@))
}

/// The configuration store: the pairs the text yielded, in line order.
#[derive(Debug)]
pub struct AppConfig {
    values: Vec<(Vec<u8>, Vec<u8>)>,
}

fn is_space_byte(b: u8) -> (r: bool)
    ensures
        r == is_space(b),
{
    b == 32 || b == 9 || b == 11 || b == 12 || b == 13
}

/// The first `b` in `s` between `from` and `to`, if any.
fn find_byte_range(s: &[u8], b: u8, from: usize, to: usize) -> (r: Option<usize>)
    requires
        from <= to <= s@.len(),
    ensures
        r matches Some(i) ==> from <= i < to && s@[i as int] == b && (forall|j: int|
            from <= j < i ==> s@[j] != b),
        r is None ==> forall|j: int| from <= j < to ==> s@[j] != b,
{
    let mut i: usize = from;
    while i < to
        invariant
            from <= i <= to <= s@.len(),
            forall|j: int| from <= j < i ==> s@[j] != b,
        decreases to - i,
    {
        if s[i] == b {
            return Some(i);
        }
        i += 1;
    }
    None
}

/// The first occurrence found over a subrange is the first occurrence of
/// the subrange taken as a sequence of its own.
proof fn lemma_find_byte_in_subrange(s: Seq<u8>, b: u8, from: int, to: int, r: Option<int>)
    requires
        0 <= from <= to <= s.len(),
        r matches Some(i) ==> from <= i < to && s[i] == b && (forall|j: int|
            from <= j < i ==> s[j] != b),
        r is None ==> forall|j: int| from <= j < to ==> s[j] != b,
    ensures
        r matches Some(i) ==> find_byte(s.subrange(from, to), b) == Some(i - from),
        r is None ==> find_byte(s.subrange(from, to), b) is None,
{
    let t = s.subrange(from, to);
    lemma_find_byte_first(t, b);
    match r {
        Some(i) => {
            assert(t[i - from] == b);
            match find_byte(t, b) {
                Some(k) => {
                    if k < i - from {
                        assert(s[k + from] == t[k]);
                        assert(false);
                    }
                    if k > i - from {
                        assert(false);
                    }
                },
                None => {
                    assert(false);
                },
            }
        },
        None => {
            match find_byte(t, b) {
                Some(k) => {
                    assert(s[k + from] == t[k]);
                    assert(false);
                },
                None => {},
            }
        },
    }
}

proof fn lemma_trim_start_index(line: Seq<u8>, k: int)
    requires
        0 <= k <= line.len(),
        forall|j: int| 0 <= j < k ==> is_space(line[j]),
        k < line.len() ==> !is_space(line[k]),
    ensures
        trim_start(line) == line.subrange(k, line.len() as int),
    decreases k,
{
    if k == 0 {
        if line.len() > 0 && is_space(line[0]) {
            assert(false);
        }
        assert(line.subrange(0, line.len() as int) =~= line);
    } else {
        let rest = line.drop_first();
        lemma_trim_start_index(rest, k - 1);
        assert(rest.subrange(k - 1, rest.len() as int) =~= line.subrange(
            k,
            line.len() as int,
        ));
    }
}

proof fn lemma_trim_end_index(t: Seq<u8>, m: int)
    requires
        0 <= m <= t.len(),
        forall|j: int| m <= j < t.len() ==> is_space(t[j]),
        m > 0 ==> !is_space(t[m - 1]),
    ensures
        trim_end(t) == t.subrange(0, m),
    decreases t.len() - m,
{
    if m == t.len() {
        if t.len() > 0 && is_space(t.last()) {
            assert(t[m - 1] == t.last());
            assert(false);
        }
        assert(t.subrange(0, m) =~= t);
    } else {
        let shorter = t.drop_last();
        assert(is_space(t.last()));
        lemma_trim_end_index(shorter, m);
        assert(shorter.subrange(0, m) =~= t.subrange(0, m));
    }
}

/// Appends the key-value pair that the line between `from` and `to` yields,
/// if it yields one.
fn push_line_pair(
    values: &mut Vec<(Vec<u8>, Vec<u8>)>,
    s: &[u8],
    from: usize,
    to: usize,
    delimiter: u8,
)
    requires
        from <= to <= s@.len(),
    ensures
        pairs_view(final(values)@) == pairs_view(old(values)@) + opt_pair_seq(
            line_pair(s@.subrange(from as int, to as int), delimiter),
        ),
{
    let ghost line = s@.subrange(from as int, to as int);
    let mut tf: usize = from;
    while tf < to && is_space_byte(s[tf])
        invariant
            from <= tf <= to <= s@.len(),
            forall|j: int| from <= j < tf ==> is_space(s@[j]),
        decreases to - tf,
    {
        tf += 1;
    }
    let mut tt: usize = to;
    while tt > tf && is_space_byte(s[tt - 1])
        invariant
            tf <= tt <= to <= s@.len(),
            forall|j: int| tt <= j < to ==> is_space(s@[j]),
        decreases tt,
    {
        tt -= 1;
    }
    let ghost t = s@.subrange(tf as int, tt as int);
    proof {
        assert forall|j: int| 0 <= j < tf - from implies is_space(line[j]) by {
            assert(line[j] == s@[from + j]);
        }
        if tf - from < line.len() {
            assert(line[tf - from] == s@[tf as int]);
        }
        lemma_trim_start_index(line, tf - from);
        let t0 = line.subrange(tf - from, line.len() as int);
        assert(t0 =~= s@.subrange(tf as int, to as int));
        assert forall|j: int| tt - tf <= j < t0.len() implies is_space(t0[j]) by {
            assert(t0[j] == s@[tf + j]);
        }
        if tt > tf {
            assert(t0[tt - tf - 1] == s@[tt - 1]);
        }
        lemma_trim_end_index(t0, tt - tf);
        assert(t0.subrange(0, tt - tf) =~= t);
        assert(trimmed(line) == t);
    }
    match find_byte_range(s, delimiter, tf, tt) {
        Some(di) => {
            let key = sub_bytes(s, tf, di);
            let val = sub_bytes(s, di + 1, tt);
            proof {
                lemma_find_byte_in_subrange(s@, delimiter, tf as int, tt as int, Some(di as int));
                assert(t.subrange(0, di - tf) =~= s@.subrange(tf as int, di as int));
                assert(t.subrange(di - tf + 1, t.len() as int) =~= s@.subrange(
                    di as int + 1,
                    tt as int,
                ));
            }
            values.push((key, val));
            proof {
                assert(pairs_view(values@) =~= pairs_view(old(values)@) + opt_pair_seq(
                    line_pair(line, delimiter),
                ));
            }
        },
        None => {
            proof {
                lemma_find_byte_in_subrange(s@, delimiter, tf as int, tt as int, None);
                assert(pairs_view(values@) =~= pairs_view(values@) + opt_pair_seq(
                    line_pair(line, delimiter),
                ));
            }
        },
    }
}

impl View for AppConfig {
    type V = Seq<(Seq<u8>, Seq<u8>)>;

    closed spec fn view(&self) -> Seq<(Seq<u8>, Seq<u8>)> {
        pairs_view(self.values@)
    }
}

impl AppConfig {
    /// The mapping this store answers lookups from.
    pub open spec fn as_map(&self) -> Map<Seq<u8>, Seq<u8>> {
        kv_map(self@)
    }

    /// Parses a flat `key<delimiter>value` text, line by line, into the
    /// store. The caller reads the configuration file and hands its bytes
    /// in.
    pub fn init(file_text: &Vec<u8>, delimiter: u8) -> (c: AppConfig)
        ensures
            c@ == parse_pairs(file_text@, delimiter),
    {
        let mut values: Vec<(Vec<u8>, Vec<u8>)> = Vec::new();
        let s = file_text.as_slice();
        let n = file_text.len();
        let mut p: usize = 0;
        proof {
            assert(s@.subrange(0, n as int) =~= s@);
            assert(pairs_view(values@) + parse_pairs(s@, delimiter) =~= parse_pairs(
                s@,
                delimiter,
            ));
        }
        loop
            invariant_except_break
                parse_pairs(s@, delimiter) == pairs_view(values@) + parse_pairs(
                    s@.subrange(p as int, n as int),
                    delimiter,
                ),
            invariant
                p <= n,
                n == s@.len(),
                s@ == file_text@,
            ensures
                parse_pairs(s@, delimiter) == pairs_view(values@),
            decreases n - p,
        {
            let ghost vals_before = values@;
            let ghost rest = s@.subrange(p as int, n as int);
            match find_byte_range(s, BYTE_NEWLINE, p, n) {
                Some(nl) => {
                    push_line_pair(&mut values, s, p, nl, delimiter);
                    proof {
                        lemma_find_byte_in_subrange(s@, BYTE_NEWLINE, p as int, n as int, Some(
                            nl as int,
                        ));
                        assert(rest.subrange(0, nl - p) =~= s@.subrange(p as int, nl as int));
                        assert(rest.subrange(nl - p + 1, rest.len() as int) =~= s@.subrange(
                            nl as int + 1,
                            n as int,
                        ));
                        assert(pairs_view(vals_before) + parse_pairs(rest, delimiter)
                            =~= pairs_view(values@) + parse_pairs(
                            s@.subrange(nl as int + 1, n as int),
                            delimiter,
                        ));
                    }
                    p = nl + 1;
                },
                None => {
                    push_line_pair(&mut values, s, p, n, delimiter);
                    proof {
                        lemma_find_byte_in_subrange(s@, BYTE_NEWLINE, p as int, n as int, None);
                        assert(pairs_view(vals_before) + parse_pairs(rest, delimiter)
                            =~= pairs_view(values@));
                    }
                    break;
                },
            }
        }
        AppConfig { values }
    }

    /// Looks `name` up in the store; a later line with the same key
    /// overrides an earlier one.
    pub fn get_var(&self, name: &[u8]) -> (r: Option<&Vec<u8>>)
        ensures
            r matches Some(v) ==> self.as_map().contains_key(name@) && v@
                == self.as_map().index(name@),
            r is None ==> !self.as_map().contains_key(name@),
    {
        let mut i: usize = self.values.len();
        while i > 0
            invariant
                i <= self.values@.len(),
                forall|k: int| i <= k < self.values@.len() ==> pairs_view(self.values@)[k].0
                    != name@,
            decreases i,
        {
            i -= 1;
            if crate::text::bytes_eq(self.values[i].0.as_slice(), name) {
                proof {
                    lemma_kv_map_last_match(pairs_view(self.values@), name@, i as int);
                }
                return Some(&self.values[i].1);
            }
        }
        proof {
            lemma_kv_map_no_match(pairs_view(self.values@), name@);
        }
        None
    }
}

} // verus!
