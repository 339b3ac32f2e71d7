//! The line classifier: a total function from raw file text to an ordered
//! sequence of typed line records, and the proof that the records restore
//! the text they came from.

use vstd::prelude::*;

verus! {

/// The Unicode white-space characters, as the `White_Space` property lists
/// them; this is the set that trimming and the key-value pattern skip.
pub open spec fn is_space(c: char) -> bool {
    ||| c == ' '
    ||| c == '\t'
    ||| c == '\n'
    ||| c == '\r'
    ||| (c as u32) == 0x0B
    ||| (c as u32) == 0x0C
    ||| (c as u32) == 0x85
    ||| (c as u32) == 0xA0
    ||| (c as u32) == 0x1680
    ||| (0x2000 <= (c as u32) && (c as u32) <= 0x200A)
    ||| (c as u32) == 0x2028
    ||| (c as u32) == 0x2029
    ||| (c as u32) == 0x202F
    ||| (c as u32) == 0x205F
    ||| (c as u32) == 0x3000
}

/// A character that may open a key: a letter or an underscore.
pub open spec fn is_key_start(c: char) -> bool {
    ||| (0x41 <= (c as u32) && (c as u32) <= 0x5A)
    ||| (0x61 <= (c as u32) && (c as u32) <= 0x7A)
    ||| c == '_'
}

/// A character that may continue a key: a letter, digit or underscore.
pub open spec fn is_key_char(c: char) -> bool {
    is_key_start(c) || (0x30 <= (c as u32) && (c as u32) <= 0x39)
}

/// Decides `is_space`.
pub fn is_space_char(c: char) -> (r: bool)
    ensures
        r == is_space(c),
{
    let u = c as u32;
    u == 0x20 || u == 0x09 || u == 0x0A || u == 0x0D || u == 0x0B || u == 0x0C || u == 0x85 || u
        == 0xA0 || u == 0x1680 || (0x2000 <= u && u <= 0x200A) || u == 0x2028 || u == 0x2029 || u
        == 0x202F || u == 0x205F || u == 0x3000
}

/// Decides `is_key_start`.
pub fn is_key_start_char(c: char) -> (r: bool)
    ensures
        r == is_key_start(c),
{
    let u = c as u32;
    (0x41 <= u && u <= 0x5A) || (0x61 <= u && u <= 0x7A) || u == 0x5F
}

/// Decides `is_key_char`.
pub fn is_key_char_char(c: char) -> (r: bool)
    ensures
        r == is_key_char(c),
{
    is_key_start_char(c) || {
        let u = c as u32;
        0x30 <= u && u <= 0x39
    }
}

/// The first index at or after `i` that does not hold white space.
pub open spec fn ws_run(s: Seq<char>, i: int) -> int
    decreases s.len() - i,
{
    if 0 <= i < s.len() && is_space(s[i]) {
        ws_run(s, i + 1)
    } else {
        i
    }
}

/// The first index at or after `i` that does not hold a key character.
pub open spec fn key_run(s: Seq<char>, i: int) -> int
    decreases s.len() - i,
{
    if 0 <= i < s.len() && is_key_char(s[i]) {
        key_run(s, i + 1)
    } else {
        i
    }
}

/// The index where the run of trailing carriage returns in `s[..i]` begins.
pub open spec fn cr_end(s: Seq<char>, i: int) -> int
    decreases i,
{
    if 0 < i <= s.len() && s[i - 1] == '\r' {
        cr_end(s, i - 1)
    } else {
        i
    }
}

/// `s` with every trailing carriage return removed.
pub open spec fn strip_cr(s: Seq<char>) -> Seq<char> {
    s.subrange(0, cr_end(s, s.len() as int))
}

/// A key parsed at position `j`: a key-start character, the longest run of
/// key characters, optional white space, `=`, optional white space, then
/// the rest of the line verbatim as the value.
pub open spec fn spec_key_at(s: Seq<char>, j: int) -> Option<(Seq<char>, Seq<char>)> {
    if 0 <= j < s.len() && is_key_start(s[j]) {
        let k = key_run(s, j);
        let m = ws_run(s, k);
        if 0 <= m < s.len() && s[m] == '=' {
            let v = ws_run(s, m + 1);
            Some((s.subrange(j, k), s.subrange(v, s.len() as int)))
        } else {
            None
        }
    } else {
        None
    }
}

/// Holds when the literal `export` stands at `i` and is followed by at
/// least one white-space character.
pub open spec fn spec_export_at(s: Seq<char>, i: int) -> bool {
    &&& 0 <= i
    &&& i + 7 <= s.len()
    &&& s.subrange(i, i + 6) =~= "export"@
    &&& is_space(s[i + 6])
}

/// The key-value reading of a carriage-return-stripped line, if it has
/// one: `(key, value, whether an export prefix was taken)`. An `export`
/// head whose remainder is not a key-value shape falls back to reading
/// `export` itself as the key, as the pattern's optional group does.
pub open spec fn spec_kv_of(s: Seq<char>) -> Option<(Seq<char>, Seq<char>, bool)> {
    let i = ws_run(s, 0);
    if spec_export_at(s, i) {
        let j = ws_run(s, i + 6);
        match spec_key_at(s, j) {
            Some(kv) => Some((kv.0, kv.1, true)),
            None => match spec_key_at(s, i) {
                Some(kv2) => Some((kv2.0, kv2.1, false)),
                None => None,
            },
        }
    } else {
        match spec_key_at(s, i) {
            Some(kv) => Some((kv.0, kv.1, false)),
            None => None,
        }
    }
}

/// The mathematical model of one classified line.
pub enum LineModel {
    Blank,
    Comment { raw: Seq<char> },
    Kv { key: Seq<char>, value: Seq<char>, has_export: bool, raw: Option<Seq<char>> },
    Unknown { raw: Seq<char> },
}

/// One classified line of a document. `raw` fields keep the line as it
/// stood (with trailing carriage returns stripped) for round-tripping.
#[derive(Clone, Debug)]
pub enum EnvLine {
    Blank,
    Comment { raw: String },
    Kv { key: String, value: String, has_export: bool, raw: Option<String> },
    Unknown { raw: String },
}

impl View for EnvLine {
    type V = LineModel;

    open spec fn view(&self) -> LineModel {
        match self {
            EnvLine::Blank => LineModel::Blank,
            EnvLine::Comment { raw } => LineModel::Comment { raw: raw@ },
            EnvLine::Kv { key, value, has_export, raw } => LineModel::Kv {
                key: key@,
                value: value@,
                has_export: *has_export,
                raw: match raw {
                    Some(r) => Some(r@),
                    None => None,
                },
            },
            EnvLine::Unknown { raw } => LineModel::Unknown { raw: raw@ },
        }
    }
}

/// How one physical line (already split off at line feeds) classifies:
/// all white space is Blank; a first non-space `#` or `;` is a Comment;
/// a key-value shape is Kv; anything else is Unknown. Every record but
/// Blank keeps the carriage-return-stripped line.
pub open spec fn spec_classify_line(line: Seq<char>) -> LineModel {
    let t = strip_cr(line);
    if ws_run(line, 0) == line.len() {
        LineModel::Blank
    } else {
        let j = ws_run(t, 0);
        if j < t.len() && (t[j] == '#' || t[j] == ';') {
            LineModel::Comment { raw: t }
        } else {
            match spec_kv_of(t) {
                Some(kvx) => LineModel::Kv {
                    key: kvx.0,
                    value: kvx.1,
                    has_export: kvx.2,
                    raw: Some(t),
                },
                None => LineModel::Unknown { raw: t },
            }
        }
    }
}

/// Properties of `ws_run`: it stays within bounds, skips only white
/// space, and stops at the first character that is not.
pub proof fn lemma_ws_run(s: Seq<char>, i: int)
    requires
        0 <= i <= s.len(),
    ensures
        i <= ws_run(s, i) <= s.len(),
        forall|k: int| i <= k < ws_run(s, i) ==> is_space(s[k]),
        ws_run(s, i) < s.len() ==> !is_space(s[ws_run(s, i)]),
    decreases s.len() - i,
{
    if i < s.len() && is_space(s[i]) {
        lemma_ws_run(s, i + 1);
    }
}

/// `key_run` stays within bounds.
pub proof fn lemma_key_run(s: Seq<char>, i: int)
    requires
        0 <= i <= s.len(),
    ensures
        i <= key_run(s, i) <= s.len(),
    decreases s.len() - i,
{
    if i < s.len() && is_key_char(s[i]) {
        lemma_key_run(s, i + 1);
    }
}

/// `cr_end` stays within bounds and cuts only carriage returns.
pub proof fn lemma_cr_end(s: Seq<char>, i: int)
    requires
        0 <= i <= s.len(),
    ensures
        0 <= cr_end(s, i) <= i,
        forall|k: int| cr_end(s, i) <= k < i ==> s[k] == '\r',
    decreases i,
{
    if 0 < i && s[i - 1] == '\r' {
        lemma_cr_end(s, i - 1);
    }
}

fn ws_run_x(s: &str, i: usize) -> (r: usize)
    requires
        i <= s@.len(),
    ensures
        r as int == ws_run(s@, i as int),
        i <= r <= s@.len(),
{
    let n = s.unicode_len();
    let mut k: usize = i;
    while k < n
        invariant
            i <= k <= n,
            n == s@.len(),
            ws_run(s@, i as int) == ws_run(s@, k as int),
        decreases n - k,
    {
        if !is_space_char(s.get_char(k)) {
            return k;
        }
        k = k + 1;
    }
    k
}

fn key_run_x(s: &str, i: usize) -> (r: usize)
    requires
        i <= s@.len(),
    ensures
        r as int == key_run(s@, i as int),
        i <= r <= s@.len(),
{
    let n = s.unicode_len();
    let mut k: usize = i;
    while k < n
        invariant
            i <= k <= n,
            n == s@.len(),
            key_run(s@, i as int) == key_run(s@, k as int),
        decreases n - k,
    {
        if !is_key_char_char(s.get_char(k)) {
            return k;
        }
        k = k + 1;
    }
    k
}

fn cr_end_x(s: &str) -> (r: usize)
    ensures
        r as int == cr_end(s@, s@.len() as int),
        r <= s@.len(),
{
    let n = s.unicode_len();
    let mut k: usize = n;
    while k > 0
        invariant
            0 <= k <= n,
            n == s@.len(),
            cr_end(s@, n as int) == cr_end(s@, k as int),
        decreases k,
    {
        if s.get_char(k - 1) != '\r' {
            return k;
        }
        k = k - 1;
    }
    k
}

fn export_at_x(s: &str, i: usize) -> (r: bool)
    requires
        i <= s@.len(),
    ensures
        r == spec_export_at(s@, i as int),
{
    proof {
        reveal_strlit("export");
    }
    let n = s.unicode_len();
    if n >= 7 && i <= n - 7 {
        let head = s.get_char(i) == 'e' && s.get_char(i + 1) == 'x' && s.get_char(i + 2) == 'p'
            && s.get_char(i + 3) == 'o' && s.get_char(i + 4) == 'r' && s.get_char(i + 5) == 't';
        proof {
            let sub = s@.subrange(i as int, i as int + 6);
            assert(sub.len() == 6);
            assert(sub[0] == s@[i as int]);
            assert(sub[1] == s@[i as int + 1]);
            assert(sub[2] == s@[i as int + 2]);
            assert(sub[3] == s@[i as int + 3]);
            assert(sub[4] == s@[i as int + 4]);
            assert(sub[5] == s@[i as int + 5]);
            assert("export"@[0] == 'e' && "export"@[1] == 'x' && "export"@[2] == 'p' && "export"@[3]
                == 'o' && "export"@[4] == 'r' && "export"@[5] == 't');
            if head {
                assert(sub =~= "export"@);
            } else {
                assert(!(sub =~= "export"@));
            }
        }
        head && is_space_char(s.get_char(i + 6))
    } else {
        false
    }
}

fn key_at_x(s: &str, j: usize) -> (r: Option<(String, String)>)
    requires
        j <= s@.len(),
    ensures
        (match r {
            Some(p) => (spec_key_at(s@, j as int) matches Some(q) && p.0@ == q.0 && p.1@ == q.1),
            None => spec_key_at(s@, j as int) is None,
        }),
{
    let n = s.unicode_len();
    if j < n && is_key_start_char(s.get_char(j)) {
        let k = key_run_x(s, j);
        let m = ws_run_x(s, k);
        if m < n && s.get_char(m) == '=' {
            let v = ws_run_x(s, m + 1);
            let key = String::from_str(s.substring_char(j, k));
            let value = String::from_str(s.substring_char(v, n));
            Some((key, value))
        } else {
            None
        }
    } else {
        None
    }
}

/// Classifies one physical line (no line feeds inside).
pub fn classify_env_line(line: &str) -> (r: EnvLine)
    ensures
        r@ == spec_classify_line(line@),
{
    let n = line.unicode_len();
    let w0 = ws_run_x(line, 0);
    if w0 == n {
        return EnvLine::Blank;
    }
    let e = cr_end_x(line);
    let t = line.substring_char(0, e);
    proof {
        assert(t@ =~= strip_cr(line@));
    }
    let tn = t.unicode_len();
    let j = ws_run_x(t, 0);
    if j < tn && (t.get_char(j) == '#' || t.get_char(j) == ';') {
        return EnvLine::Comment { raw: String::from_str(t) };
    }
    if export_at_x(t, j) {
        let j2 = ws_run_x(t, j + 6);
        match key_at_x(t, j2) {
            Some((k, v)) => {
                return EnvLine::Kv {
                    key: k,
                    value: v,
                    has_export: true,
                    raw: Some(String::from_str(t)),
                };
            },
            None => {},
        }
        match key_at_x(t, j) {
            Some((k, v)) => EnvLine::Kv {
                key: k,
                value: v,
                has_export: false,
                raw: Some(String::from_str(t)),
            },
            None => EnvLine::Unknown { raw: String::from_str(t) },
        }
    } else {
        match key_at_x(t, j) {
            Some((k, v)) => EnvLine::Kv {
                key: k,
                value: v,
                has_export: false,
                raw: Some(String::from_str(t)),
            },
            None => EnvLine::Unknown { raw: String::from_str(t) },
        }
    }
}

/// The index of the first line feed at or after `i`, or the length.
pub open spec fn first_nl_from(s: Seq<char>, i: int) -> int
    decreases s.len() - i,
{
    if 0 <= i < s.len() {
        if s[i] == '\n' {
            i
        } else {
            first_nl_from(s, i + 1)
        }
    } else {
        s.len() as int
    }
}

/// The physical lines of `s`, split at every line feed, scanning from
/// position `i` with the current line begun at `start`.
pub open spec fn spec_split_from(s: Seq<char>, start: int, i: int) -> Seq<Seq<char>>
    decreases s.len() - i,
{
    if !(0 <= i < s.len()) {
        seq![s.subrange(start, s.len() as int)]
    } else if s[i] == '\n' {
        seq![s.subrange(start, i)] + spec_split_from(s, i + 1, i + 1)
    } else {
        spec_split_from(s, start, i + 1)
    }
}

/// The physical lines of `s`: what splitting on `\n` yields, one entry
/// per line, an empty text giving one empty line.
pub open spec fn spec_split_lines(s: Seq<char>) -> Seq<Seq<char>> {
    spec_split_from(s, 0, 0)
}

/// The classification of a whole text, line by line, in physical order.
pub open spec fn spec_classify_text(s: Seq<char>) -> Seq<LineModel> {
    spec_split_lines(s).map_values(|l: Seq<char>| spec_classify_line(l))
}

/// The line models of a vector of classified lines.
pub open spec fn views_of(v: Seq<EnvLine>) -> Seq<LineModel> {
    v.map_values(|l: EnvLine| l@)
}

/// Classifies raw file text into its ordered sequence of typed lines.
/// Total: every line falls into exactly one of the four records.
pub fn parse_env_lines(raw: &str) -> (r: Vec<EnvLine>)
    ensures
        views_of(r@) == spec_classify_text(raw@),
{
    let n = raw.unicode_len();
    let mut out: Vec<EnvLine> = Vec::new();
    let mut start: usize = 0;
    let mut i: usize = 0;
    while i < n
        invariant
            0 <= start <= i <= n,
            n == raw@.len(),
            spec_classify_text(raw@) =~= views_of(out@) + spec_split_from(
                raw@,
                start as int,
                i as int,
            ).map_values(|l: Seq<char>| spec_classify_line(l)),
        decreases n - i,
    {
        if raw.get_char(i) == '\n' {
            let line = raw.substring_char(start, i);
            let rec = classify_env_line(line);
            proof {
                assert(line@ =~= raw@.subrange(start as int, i as int));
                let rest = spec_split_from(raw@, i as int + 1, i as int + 1);
                let f = |l: Seq<char>| spec_classify_line(l);
                assert(spec_split_from(raw@, start as int, i as int) =~= seq![line@] + rest);
                assert((seq![line@] + rest).map_values(f) =~= seq![spec_classify_line(line@)]
                    + rest.map_values(f));
                assert(views_of(out@.push(rec)) =~= views_of(out@) + seq![rec@]);
            }
            out.push(rec);
            start = i + 1;
        }
        i = i + 1;
    }
    let line = raw.substring_char(start, n);
    let rec = classify_env_line(line);
    proof {
        assert(line@ =~= raw@.subrange(start as int, n as int));
        let f = |l: Seq<char>| spec_classify_line(l);
        assert(spec_split_from(raw@, start as int, n as int) =~= seq![line@]);
        assert(seq![line@].map_values(f) =~= seq![spec_classify_line(line@)]);
        assert(views_of(out@.push(rec)) =~= views_of(out@) + seq![rec@]);
    }
    out.push(rec);
    proof {
        assert(views_of(out@) =~= spec_classify_text(raw@));
    }
    out
}

/// The text a classified record stands for: its raw field, nothing for a
/// Blank, and a rebuilt `key=value` shape for a Kv without a raw line.
pub open spec fn spec_restore_line(m: LineModel) -> Seq<char> {
    match m {
        LineModel::Blank => Seq::<char>::empty(),
        LineModel::Comment { raw } => raw,
        LineModel::Kv { key, value, has_export, raw } => match raw {
            Some(r) => r,
            None => (if has_export {
                "export "@ + key
            } else {
                key
            }) + "="@ + value,
        },
        LineModel::Unknown { raw } => raw,
    }
}

/// The text a sequence of records stands for, joined with line feeds.
pub open spec fn spec_restore_text(ms: Seq<LineModel>) -> Seq<char>
    decreases ms.len(),
{
    if ms.len() == 0 {
        Seq::<char>::empty()
    } else if ms.len() == 1 {
        spec_restore_line(ms[0])
    } else {
        spec_restore_line(ms[0]) + seq!['\n'] + spec_restore_text(ms.drop_first())
    }
}

/// A line loses nothing in classification when it carries no trailing
/// carriage return and, if it is all white space, it is empty.
pub open spec fn spec_line_round_trip_safe(l: Seq<char>) -> bool {
    &&& cr_end(l, l.len() as int) == l.len()
    &&& (ws_run(l, 0) == l.len() ==> l.len() == 0)
}

/// Classifying one safe line and restoring it gives the line back.
pub proof fn lemma_classify_line_round_trip(l: Seq<char>)
    requires
        spec_line_round_trip_safe(l),
    ensures
        spec_restore_line(spec_classify_line(l)) == l,
{
    assert(strip_cr(l) =~= l);
    if ws_run(l, 0) == l.len() {
        assert(spec_restore_line(spec_classify_line(l)) =~= l);
    }
}

/// Every split has at least one line.
proof fn lemma_split_from_len(s: Seq<char>, start: int, i: int)
    ensures
        spec_split_from(s, start, i).len() >= 1,
    decreases s.len() - i,
{
    if 0 <= i < s.len() && s[i] != '\n' {
        lemma_split_from_len(s, start, i + 1);
    }
}

proof fn lemma_restore_from(s: Seq<char>, start: int, i: int)
    requires
        0 <= start <= i <= s.len(),
        forall|k: int| start <= k < i ==> s[k] != '\n',
        forall|k: int|
            0 <= k < spec_split_from(s, start, i).len() ==> spec_line_round_trip_safe(
                #[trigger] spec_split_from(s, start, i)[k],
            ),
    ensures
        spec_restore_text(
            spec_split_from(s, start, i).map_values(|l: Seq<char>| spec_classify_line(l)),
        ) =~= s.subrange(start, s.len() as int),
    decreases s.len() - i,
{
    let f = |l: Seq<char>| spec_classify_line(l);
    if !(0 <= i < s.len()) {
        let line = s.subrange(start, s.len() as int);
        assert(spec_split_from(s, start, i)[0] == line);
        lemma_classify_line_round_trip(line);
        assert(spec_split_from(s, start, i).map_values(f) =~= seq![spec_classify_line(line)]);
    } else if s[i] == '\n' {
        let line = s.subrange(start, i);
        let rest = spec_split_from(s, i + 1, i + 1);
        assert(spec_split_from(s, start, i) =~= seq![line] + rest);
        assert(spec_split_from(s, start, i)[0] == line);
        assert forall|k: int| 0 <= k < rest.len() implies spec_line_round_trip_safe(
            #[trigger] rest[k],
        ) by {
            assert(rest[k] == spec_split_from(s, start, i)[k + 1]);
        }
        lemma_restore_from(s, i + 1, i + 1);
        lemma_classify_line_round_trip(line);
        lemma_split_from_len(s, i + 1, i + 1);
        let ms = spec_split_from(s, start, i).map_values(f);
        assert(ms.len() == 1 + rest.len());
        assert(ms[0] == f(line));
        assert(ms.drop_first() =~= rest.map_values(f));
        assert(spec_restore_text(ms) == spec_restore_line(ms[0]) + seq!['\n'] + spec_restore_text(
            ms.drop_first(),
        ));
        assert(s.subrange(start, s.len() as int) =~= line + seq!['\n'] + s.subrange(
            i + 1,
            s.len() as int,
        ));
    } else {
        lemma_restore_from(s, start, i + 1);
        assert(spec_split_from(s, start, i) == spec_split_from(s, start, i + 1));
    }
}

/// A whole text loses nothing in classification when each of its lines
/// is safe in the sense of `spec_line_round_trip_safe`.
pub open spec fn spec_round_trip_safe(s: Seq<char>) -> bool {
    forall|k: int|
        0 <= k < spec_split_lines(s).len() ==> spec_line_round_trip_safe(
            #[trigger] spec_split_lines(s)[k],
        )
}

/// Round trip: classifying a safe text and restoring every record, joined
/// with line feeds, reproduces the text exactly.
pub proof fn lemma_classify_round_trip(s: Seq<char>)
    requires
        spec_round_trip_safe(s),
    ensures
        spec_restore_text(spec_classify_text(s)) == s,
{
    assert forall|k: int| 0 <= k < spec_split_from(s, 0, 0).len() implies spec_line_round_trip_safe(
        #[trigger] spec_split_from(s, 0, 0)[k],
    ) by {
        assert(spec_split_from(s, 0, 0)[k] == spec_split_lines(s)[k]);
    }
    lemma_restore_from(s, 0, 0);
    assert(s.subrange(0, s.len() as int) =~= s);
}

} // verus!
