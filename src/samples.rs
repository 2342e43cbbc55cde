use vstd::prelude::*;

verus! {

/// A user record.
pub struct User {
    pub name: String,
    pub age: u32,
}

/// Byte-wise lexicographic order: a proper prefix comes first.
pub open spec fn lex_less(a: Seq<u8>, b: Seq<u8>) -> bool
    decreases a.len(),
{
    if a.len() == 0 {
        b.len() > 0
    } else if b.len() == 0 {
        false
    } else if a[0] != b[0] {
        a[0] < b[0]
    } else {
        lex_less(a.drop_first(), b.drop_first())
    }
}

proof fn lemma_lex_trans(a: Seq<u8>, b: Seq<u8>, c: Seq<u8>)
    requires
        lex_less(a, b),
        lex_less(b, c),
    ensures
        lex_less(a, c),
    decreases a.len(),
{
    if a.len() > 0 && b.len() > 0 && c.len() > 0 && a[0] == b[0] && b[0] == c[0] {
        lemma_lex_trans(a.drop_first(), b.drop_first(), c.drop_first());
    }
}

proof fn lemma_lex_total(a: Seq<u8>, b: Seq<u8>)
    ensures
        a != b ==> lex_less(a, b) || lex_less(b, a),
        !(lex_less(a, b) && lex_less(b, a)),
    decreases a.len(),
{
    if a.len() > 0 && b.len() > 0 && a[0] == b[0] {
        lemma_lex_total(a.drop_first(), b.drop_first());
        if a != b {
            assert(a.drop_first() != b.drop_first()) by {
                if a.drop_first() == b.drop_first() && a.len() == b.len() {
                    assert forall|k: int| 0 <= k < a.len() implies a[k] == b[k] by {
                        if k > 0 {
                            assert(a[k] == a.drop_first()[k - 1]);
                            assert(b[k] == b.drop_first()[k - 1]);
                        }
                    }
                    assert(a =~= b);
                }
            }
        }
    } else if a.len() == 0 && b.len() == 0 {
        assert(a =~= b);
    }
}

fn bytes_less(a: &Vec<u8>, b: &Vec<u8>) -> (r: bool)
    ensures
        r == lex_less(a@, b@),
{
    let mut i: usize = 0;
    assert(a@.subrange(0, a@.len() as int) =~= a@);
    assert(b@.subrange(0, b@.len() as int) =~= b@);
    while i < a.len() && i < b.len()
        invariant
            i <= a@.len(),
            i <= b@.len(),
            lex_less(a@, b@) == lex_less(a@.subrange(i as int, a@.len() as int), b@.subrange(i as int, b@.len() as int)),
        decreases a@.len() - i,
    {
        assert(a@.subrange(i as int, a@.len() as int).drop_first() =~= a@.subrange(i + 1, a@.len() as int));
        assert(b@.subrange(i as int, b@.len() as int).drop_first() =~= b@.subrange(i + 1, b@.len() as int));
        if a[i] != b[i] {
            return a[i] < b[i];
        }
        i = i + 1;
    }
    a.len() < b.len()
}

pub open spec fn names_sorted(r: Seq<Vec<u8>>) -> bool {
    forall|i: int, j: int| 0 <= i < j < r.len() ==> lex_less(#[trigger] r[i]@, #[trigger] r[j]@)
}

pub open spec fn has_name(v: Seq<Vec<u8>>, n: int, s: Seq<u8>) -> bool {
    exists|k: int| 0 <= k < n && #[trigger] v[k]@ == s
}

/// The names, each once, in increasing byte order.
pub fn distinct_sorted(names: &Vec<Vec<u8>>) -> (r: Vec<Vec<u8>>)
    ensures
        names_sorted(r@),
        forall|s: Seq<u8>| has_name(r@, r@.len() as int, s) <==> has_name(names@, names@.len() as int, s),
{
    let mut out: Vec<Vec<u8>> = Vec::new();
    let mut i: usize = 0;
    while i < names.len()
        invariant
            i <= names@.len(),
            names_sorted(out@),
            forall|s: Seq<u8>| has_name(out@, out@.len() as int, s) <==> has_name(names@, i as int, s),
        decreases names.len() - i,
    {
        let x = names[i].clone();
        let mut idx: usize = 0;
        while idx < out.len() && bytes_less(&out[idx], &x)
            invariant
                idx <= out@.len(),
                forall|k: int| 0 <= k < idx ==> lex_less(#[trigger] out@[k]@, x@),
            decreases out@.len() - idx,
        {
            idx = idx + 1;
        }
        let dup = idx < out.len() && bytes_equal(&out[idx], &x);
        let ghost prev = out@;
        if !dup {
            out.insert(idx, x);
            assert(names_sorted(out@)) by {
                assert forall|a: int, b: int| 0 <= a < b < out@.len() implies lex_less(
                    #[trigger] out@[a]@,
                    #[trigger] out@[b]@,
                ) by {
                    if idx < prev.len() {
                        lemma_lex_total(prev[idx as int]@, x@);
                    }
                    if b < idx {
                    } else if b == idx {
                    } else if a < idx {
                        lemma_lex_trans(prev[a]@, x@, prev[idx as int]@);
                        if b - 1 > idx {
                            lemma_lex_trans(prev[a]@, prev[idx as int]@, prev[b - 1]@);
                        }
                    } else if a == idx {
                        if b - 1 > idx {
                            lemma_lex_trans(x@, prev[idx as int]@, prev[b - 1]@);
                        }
                    } else {
                        assert(lex_less(prev[a - 1]@, prev[b - 1]@));
                    }
                }
            }
        }
        assert forall|s: Seq<u8>| has_name(out@, out@.len() as int, s) <==> has_name(names@, i + 1, s) by {
            if has_name(out@, out@.len() as int, s) {
                let k = choose|k: int| 0 <= k < out@.len() && #[trigger] out@[k]@ == s;
                if !dup {
                    if k < idx {
                        assert(prev[k]@ == s);
                        assert(has_name(prev, prev.len() as int, s));
                    } else if k > idx {
                        assert(prev[k - 1]@ == s);
                        assert(has_name(prev, prev.len() as int, s));
                    } else {
                        assert(names@[i as int]@ == s);
                    }
                } else {
                    assert(has_name(prev, prev.len() as int, s));
                }
                if has_name(names@, i as int, s) {
                    let j = choose|j: int| 0 <= j < i && #[trigger] names@[j]@ == s;
                    assert(has_name(names@, i + 1, s));
                } else if s == names@[i as int]@ {
                    assert(has_name(names@, i + 1, s));
                }
            }
            if has_name(names@, i + 1, s) {
                let j = choose|j: int| 0 <= j < i + 1 && #[trigger] names@[j]@ == s;
                if j < i {
                    assert(has_name(names@, i as int, s));
                    let k = choose|k: int| 0 <= k < prev.len() && #[trigger] prev[k]@ == s;
                    if !dup {
                        if k < idx {
                            assert(out@[k]@ == s);
                        } else {
                            assert(out@[k + 1]@ == s);
                        }
                    } else {
                        assert(out@[k]@ == s);
                    }
                } else {
                    if !dup {
                        assert(out@[idx as int]@ == s);
                    } else {
                        assert(out@[idx as int]@ == s);
                    }
                }
            }
        }
        i = i + 1;
    }
    out
}

/// Client settings.
#[derive(Clone, Copy, Debug, PartialEq, Eq, Structural)]
pub struct Config {
    pub max_retries: u32,
    pub timeout_ms: u64,
    pub verbose: bool,
}

/// The text of an HTTP status code: every code gets one.
pub fn get_status_message(code: u32) -> (r: &'static str)
    ensures
        code == 200 ==> r@ == "OK"@,
        code == 404 ==> r@ == "Not Found"@,
        code != 200 && code != 404 ==> r@ == "Unknown"@,
{
    match code {
        200 => "OK",
        404 => "Not Found",
        _ => "Unknown",
    }
}

/// Checks connection parameters: the timeout must be positive.
pub fn connect(address: &str, timeout: u64) -> (r: Result<(), String>)
    ensures
        timeout > 0 <==> r is Ok,
        r matches Err(e) ==> e@ == "timeout must be positive"@,
{
    if timeout == 0 {
        return Err("timeout must be positive".to_owned());
    }
    Ok(())
}

/// Connects to `address` with the configured timeout.
pub fn apply_config(config: &Config, address: &str) -> (r: Result<(), String>)
    ensures
        config.timeout_ms > 0 <==> r is Ok,
        r matches Err(e) ==> e@ == "timeout must be positive"@,
{
    connect(address, config.timeout_ms)
}

/// Checks a server address: the host must be named and the port nonzero.
pub fn connect_to_server(host: &[u8], port: u16) -> (r: Result<(), String>)
    ensures
        host@.len() == 0 ==> (r matches Err(e) && e@ == "host is empty"@),
        host@.len() > 0 && port == 0 ==> (r matches Err(e) && e@ == "invalid port"@),
        host@.len() > 0 && port > 0 ==> r is Ok,
{
    if host.len() == 0 {
        return Err("host is empty".to_owned());
    }
    if port == 0 {
        return Err("invalid port".to_owned());
    }
    Ok(())
}

/// ASCII white space: space, tab, line feed, vertical tab, form feed and
/// carriage return.
pub open spec fn is_space(b: u8) -> bool {
    b == 32 || (9 <= b <= 13)
}

/// `c` is the UTF-8 encoding of a white-space character, as
/// `char::is_whitespace` has it: the ASCII ones, U+0085, U+00A0, U+1680,
/// U+2000 to U+200A, U+2028, U+2029, U+202F, U+205F and U+3000.
pub open spec fn ws_encoding(c: Seq<u8>) -> bool {
    ||| c.len() == 1 && is_space(c[0])
    ||| c.len() == 2 && c[0] == 0xC2 && (c[1] == 0x85 || c[1] == 0xA0)
    ||| c.len() == 3 && c[0] == 0xE1 && c[1] == 0x9A && c[2] == 0x80
    ||| c.len() == 3 && c[0] == 0xE2 && c[1] == 0x80 && ((0x80 <= c[2] <= 0x8A) || c[2] == 0xA8 || c[2]
        == 0xA9 || c[2] == 0xAF)
    ||| c.len() == 3 && c[0] == 0xE2 && c[1] == 0x81 && c[2] == 0x9F
    ||| c.len() == 3 && c[0] == 0xE3 && c[1] == 0x80 && c[2] == 0x80
}

/// The length of the white-space character that `s` starts with (0 if none).
pub open spec fn lead_ws(s: Seq<u8>) -> int {
    if s.len() >= 1 && ws_encoding(s.subrange(0, 1)) {
        1
    } else if s.len() >= 2 && ws_encoding(s.subrange(0, 2)) {
        2
    } else if s.len() >= 3 && ws_encoding(s.subrange(0, 3)) {
        3
    } else {
        0
    }
}

/// The length of the white-space character that `s` ends with (0 if none).
pub open spec fn trail_ws(s: Seq<u8>) -> int {
    let n = s.len() as int;
    if n >= 1 && ws_encoding(s.subrange(n - 1, n)) {
        1
    } else if n >= 2 && ws_encoding(s.subrange(n - 2, n)) {
        2
    } else if n >= 3 && ws_encoding(s.subrange(n - 3, n)) {
        3
    } else {
        0
    }
}

pub open spec fn trim_front(s: Seq<u8>) -> Seq<u8>
    decreases s.len(),
{
    let k = lead_ws(s);
    if 0 < k <= s.len() {
        trim_front(s.subrange(k, s.len() as int))
    } else {
        s
    }
}

pub open spec fn trim_back(s: Seq<u8>) -> Seq<u8>
    decreases s.len(),
{
    let k = trail_ws(s);
    if 0 < k <= s.len() {
        trim_back(s.subrange(0, s.len() - k))
    } else {
        s
    }
}

/// The text with leading and trailing white space removed, as `str::trim` does.
pub open spec fn trim(s: Seq<u8>) -> Seq<u8> {
    trim_back(trim_front(s))
}

fn enc_ws(s: &Vec<u8>, i: usize, k: usize) -> (r: bool)
    requires
        1 <= k <= 3,
        i as int + k as int <= s@.len(),
    ensures
        r == ws_encoding(s@.subrange(i as int, (i + k) as int)),
{
    let x = s[i];
    let len = s.len();
    assert(len as int == s@.len());
    if k == 1 {
        x == 32 || (9 <= x && x <= 13)
    } else if k == 2 {
        let y = s[i + 1];
        x == 0xC2 && (y == 0x85 || y == 0xA0)
    } else {
        let y = s[i + 1];
        let z = s[i + 2];
        (x == 0xE1 && y == 0x9A && z == 0x80) || (x == 0xE2 && y == 0x80 && ((0x80 <= z && z <= 0x8A) || z == 0xA8
            || z == 0xA9 || z == 0xAF)) || (x == 0xE2 && y == 0x81 && z == 0x9F) || (x == 0xE3 && y == 0x80 && z
            == 0x80)
    }
}

fn lead_len(s: &Vec<u8>, a: usize, b: usize) -> (k: usize)
    requires
        a <= b <= s@.len(),
    ensures
        k as int == lead_ws(s@.subrange(a as int, b as int)),
        k <= b - a,
{
    let ghost t = s@.subrange(a as int, b as int);
    if b - a >= 1 {
        assert(t.subrange(0, 1) =~= s@.subrange(a as int, a + 1));
    }
    if b - a >= 2 {
        assert(t.subrange(0, 2) =~= s@.subrange(a as int, a + 2));
    }
    if b - a >= 3 {
        assert(t.subrange(0, 3) =~= s@.subrange(a as int, a + 3));
    }
    if b - a >= 1 && enc_ws(s, a, 1) {
        1
    } else if b - a >= 2 && enc_ws(s, a, 2) {
        2
    } else if b - a >= 3 && enc_ws(s, a, 3) {
        3
    } else {
        0
    }
}

fn trail_len(s: &Vec<u8>, a: usize, b: usize) -> (k: usize)
    requires
        a <= b <= s@.len(),
    ensures
        k as int == trail_ws(s@.subrange(a as int, b as int)),
        k <= b - a,
{
    let ghost t = s@.subrange(a as int, b as int);
    let ghost n = t.len() as int;
    if b - a >= 1 {
        assert(t.subrange(n - 1, n) =~= s@.subrange(b - 1, b as int));
    }
    if b - a >= 2 {
        assert(t.subrange(n - 2, n) =~= s@.subrange(b - 2, b as int));
    }
    if b - a >= 3 {
        assert(t.subrange(n - 3, n) =~= s@.subrange(b - 3, b as int));
    }
    if b - a >= 1 && enc_ws(s, b - 1, 1) {
        1
    } else if b - a >= 2 && enc_ws(s, b - 2, 2) {
        2
    } else if b - a >= 3 && enc_ws(s, b - 3, 3) {
        3
    } else {
        0
    }
}

/// The bytes of `s[lo..hi]`, trimmed.
fn trimmed(s: &Vec<u8>, lo: usize, hi: usize) -> (r: Vec<u8>)
    requires
        lo <= hi <= s@.len(),
    ensures
        r@ == trim(s@.subrange(lo as int, hi as int)),
{
    let ghost whole = s@.subrange(lo as int, hi as int);
    assert(whole =~= s@.subrange(lo as int, hi as int));
    let mut a: usize = lo;
    let mut k = lead_len(s, a, hi);
    while k > 0
        invariant
            lo <= a <= hi <= s@.len(),
            k as int == lead_ws(s@.subrange(a as int, hi as int)),
            k <= hi - a,
            trim_front(whole) == trim_front(s@.subrange(a as int, hi as int)),
        decreases hi - a,
    {
        assert(s@.subrange(a as int, hi as int).subrange(k as int, (hi - a) as int) =~= s@.subrange(
            (a + k) as int,
            hi as int,
        ));
        a = a + k;
        k = lead_len(s, a, hi);
    }
    assert(trim_front(whole) == s@.subrange(a as int, hi as int));
    let mut b: usize = hi;
    let mut k = trail_len(s, a, b);
    while k > 0
        invariant
            a <= b <= hi <= s@.len(),
            k as int == trail_ws(s@.subrange(a as int, b as int)),
            k <= b - a,
            trim(whole) == trim_back(s@.subrange(a as int, b as int)),
        decreases b - a,
    {
        assert(s@.subrange(a as int, b as int).subrange(0, (b - a - k) as int) =~= s@.subrange(
            a as int,
            (b - k) as int,
        ));
        b = b - k;
        k = trail_len(s, a, b);
    }
    let mut out: Vec<u8> = Vec::new();
    let mut k: usize = a;
    while k < b
        invariant
            a <= k <= b <= s@.len(),
            out@ == s@.subrange(a as int, k as int),
        decreases b - k,
    {
        out.push(s[k]);
        assert(s@.subrange(a as int, k + 1) =~= s@.subrange(a as int, k as int).push(s@[k as int]));
        k = k + 1;
    }
    out
}

/// One `key = value` setting.
pub struct ConfigEntry {
    pub key: Vec<u8>,
    pub value: Vec<u8>,
}

/// The position of the first `=` at or after `from`, or the length of the
/// line if there is none.
pub open spec fn next_eq(line: Seq<u8>, from: int) -> int
    decreases line.len() - from,
{
    if from < 0 || from >= line.len() {
        line.len() as int
    } else if line[from] == 61 {
        from
    } else {
        next_eq(line, from + 1)
    }
}

pub open spec fn has_eq(line: Seq<u8>) -> bool {
    next_eq(line, 0) < line.len()
}

/// The setting a line holds: the trimmed text before its first `=`, and the
/// trimmed text between that `=` and the next one (or the end of the line).
pub open spec fn setting_of(line: Seq<u8>) -> (Seq<u8>, Seq<u8>) {
    let i = next_eq(line, 0);
    let j = next_eq(line, i + 1);
    (trim(line.subrange(0, i)), trim(line.subrange(i + 1, j)))
}

fn find_eq(line: &Vec<u8>, from: usize) -> (r: usize)
    requires
        from <= line@.len(),
    ensures
        r as int == next_eq(line@, from as int),
        from <= r <= line@.len(),
{
    let mut i: usize = from;
    while i < line.len() && line[i] != 61
        invariant
            from <= i <= line@.len(),
            next_eq(line@, from as int) == next_eq(line@, i as int),
        decreases line.len() - i,
    {
        i = i + 1;
    }
    i
}

/// What a key and a value are, as byte strings.
pub open spec fn pairs_of(es: Seq<ConfigEntry>) -> Seq<(Seq<u8>, Seq<u8>)> {
    es.map_values(|e: ConfigEntry| (e.key@, e.value@))
}

/// The settings of lines that all hold an `=`.
pub open spec fn settings(lines: Seq<Vec<u8>>) -> Seq<(Seq<u8>, Seq<u8>)> {
    lines.map_values(|l: Vec<u8>| setting_of(l@))
}

/// Splits a line at its first `=` into a trimmed key and a trimmed value;
/// the value ends at the next `=`, if there is one.
pub fn parse_config_line(line: &Vec<u8>) -> (r: Option<ConfigEntry>)
    ensures
        match r {
            Some(e) => has_eq(line@) && (e.key@, e.value@) == setting_of(line@),
            None => !has_eq(line@),
        },
{
    let i = find_eq(line, 0);
    if i == line.len() {
        return None;
    }
    let j = find_eq(line, i + 1);
    let key = trimmed(line, 0, i);
    let value = trimmed(line, i + 1, j);
    Some(ConfigEntry { key, value })
}

/// Why the lines of a configuration could not be read: the index of the
/// first line without `=`.
#[derive(Clone, Copy, Debug, PartialEq, Eq, Structural)]
pub struct MalformedLine {
    pub line: usize,
}

/// Reads `key = value` lines, one entry per line in order; each line must
/// hold an `=`. Where a key is set on several lines, readers take the last
/// (see `find_key`).
pub fn read_config(lines: &Vec<Vec<u8>>) -> (r: Result<Vec<ConfigEntry>, MalformedLine>)
    ensures
        match r {
            Ok(v) => (forall|k: int| 0 <= k < lines@.len() ==> #[trigger] has_eq(lines@[k]@)) && pairs_of(v@)
                == settings(lines@),
            Err(m) => m.line < lines@.len() && !has_eq(lines@[m.line as int]@) && forall|k: int|
                0 <= k < m.line ==> #[trigger] has_eq(lines@[k]@),
        },
{
    let mut out: Vec<ConfigEntry> = Vec::new();
    let mut k: usize = 0;
    while k < lines.len()
        invariant
            k <= lines@.len(),
            out@.len() == k,
            forall|j: int| 0 <= j < k ==> #[trigger] has_eq(lines@[j]@),
            forall|j: int| 0 <= j < k ==> (#[trigger] out@[j].key@, out@[j].value@) == setting_of(lines@[j]@),
        decreases lines.len() - k,
    {
        match parse_config_line(&lines[k]) {
            Some(e) => {
                out.push(e);
            },
            None => {
                return Err(MalformedLine { line: k });
            },
        }
        k = k + 1;
    }
    assert(pairs_of(out@) =~= settings(lines@));
    Ok(out)
}

pub open spec fn port_key() -> Seq<u8> {
    seq![112u8, 111u8, 114u8, 116u8]
}

pub open spec fn host_key() -> Seq<u8> {
    seq![104u8, 111u8, 115u8, 116u8]
}

/// The last entry among the first `n` whose key is `key`: a later setting
/// of a key replaces an earlier one.
pub open spec fn find_key(entries: Seq<(Seq<u8>, Seq<u8>)>, key: Seq<u8>, n: nat) -> Option<int>
    decreases n,
{
    if n == 0 {
        None
    } else if entries[n - 1].0 == key {
        Some(n - 1)
    } else {
        find_key(entries, key, (n - 1) as nat)
    }
}

fn bytes_equal(a: &Vec<u8>, b: &Vec<u8>) -> (r: bool)
    ensures
        r == (a@ == b@),
{
    if a.len() != b.len() {
        return false;
    }
    let mut i: usize = 0;
    while i < a.len()
        invariant
            i <= a@.len(),
            a@.len() == b@.len(),
            forall|j: int| 0 <= j < i ==> a@[j] == b@[j],
        decreases a.len() - i,
    {
        if a[i] != b[i] {
            return false;
        }
        i = i + 1;
    }
    assert(a@ =~= b@);
    true
}

fn lookup(entries: &Vec<ConfigEntry>, key: &Vec<u8>) -> (r: Option<usize>)
    ensures
        match r {
            Some(i) => i < entries@.len() && find_key(pairs_of(entries@), key@, entries@.len()) == Some(i as int),
            None => find_key(pairs_of(entries@), key@, entries@.len()) is None,
        },
{
    let mut i: usize = entries.len();
    while i > 0
        invariant
            i <= entries@.len(),
            find_key(pairs_of(entries@), key@, entries@.len()) == find_key(pairs_of(entries@), key@, i as nat),
        decreases i,
    {
        i = i - 1;
        if bytes_equal(&entries[i].key, key) {
            return Some(i);
        }
    }
    None
}

pub open spec fn is_digit(b: u8) -> bool {
    48 <= b <= 57
}

pub open spec fn all_digits(s: Seq<u8>) -> bool {
    forall|i: int| 0 <= i < s.len() ==> is_digit(#[trigger] s[i])
}

/// The number that a string of decimal digits spells.
pub open spec fn decimal(s: Seq<u8>) -> int
    decreases s.len(),
{
    if s.len() == 0 {
        0
    } else {
        decimal(s.drop_last()) * 10 + (s.last() - 48)
    }
}

proof fn lemma_decimal_grows(s: Seq<u8>, k: int)
    requires
        0 <= k <= s.len(),
        all_digits(s),
    ensures
        0 <= decimal(s.subrange(0, k)) <= decimal(s),
    decreases s.len() - k,
{
    if k < s.len() {
        lemma_decimal_grows(s, k + 1);
        let t = s.subrange(0, k + 1);
        assert(t.drop_last() =~= s.subrange(0, k));
        assert(is_digit(s[k]));
    } else {
        assert(s.subrange(0, k) =~= s);
    }
    assert(all_digits(s.subrange(0, k))) by {
        assert forall|i: int| 0 <= i < k implies is_digit(#[trigger] s.subrange(0, k)[i]) by {
            assert(is_digit(s[i]));
        }
    }
    lemma_decimal_nonneg(s.subrange(0, k));
}

proof fn lemma_decimal_nonneg(s: Seq<u8>)
    requires
        all_digits(s),
    ensures
        decimal(s) >= 0,
    decreases s.len(),
{
    if s.len() > 0 {
        assert(is_digit(s[s.len() - 1]));
        assert(all_digits(s.drop_last())) by {
            assert forall|i: int| 0 <= i < s.len() - 1 implies is_digit(#[trigger] s.drop_last()[i]) by {
                assert(is_digit(s[i]));
            }
        }
        lemma_decimal_nonneg(s.drop_last());
    }
}

/// Why no port could be read.
#[derive(Clone, Copy, Debug, PartialEq, Eq, Structural)]
pub enum PortError {
    /// No `port` setting.
    Missing,
    /// The setting has no digits, or a byte that is neither a digit nor one leading `+`.
    NotANumber,
    /// The number does not fit in 16 bits.
    OutOfRange,
}

/// The digits of a port's text: all of it, or what follows one leading `+`.
pub open spec fn port_digits(value: Seq<u8>) -> Seq<u8> {
    if value.len() > 0 && value[0] == 43 {
        value.subrange(1, value.len() as int)
    } else {
        value
    }
}

/// What parsing a port's text gives: an optional `+`, then at least one
/// decimal digit, spelling a number that fits in 16 bits.
pub open spec fn port_of(value: Seq<u8>) -> Result<u16, PortError> {
    let d = port_digits(value);
    if d.len() == 0 || !all_digits(d) {
        Err(PortError::NotANumber)
    } else if decimal(d) > 65535 {
        Err(PortError::OutOfRange)
    } else {
        Ok(decimal(d) as u16)
    }
}

/// Parses the decimal text of a port number.
pub fn parse_port_value(value: &Vec<u8>) -> (r: Result<u16, PortError>)
    ensures
        r == port_of(value@),
{
    let start: usize = if value.len() > 0 && value[0] == 43 { 1 } else { 0 };
    let ghost d = port_digits(value@);
    assert(d =~= value@.subrange(start as int, value@.len() as int));
    if start == value.len() {
        return Err(PortError::NotANumber);
    }
    let mut i: usize = start;
    while i < value.len()
        invariant
            start <= i <= value@.len(),
            d == port_digits(value@),
            d =~= value@.subrange(start as int, value@.len() as int),
            forall|j: int| start <= j < i ==> is_digit(value@[j]),
        decreases value.len() - i,
    {
        if value[i] < 48 || value[i] > 57 {
            assert(!is_digit(d[i - start]));
            return Err(PortError::NotANumber);
        }
        i = i + 1;
    }
    assert(all_digits(d)) by {
        assert forall|j: int| 0 <= j < d.len() implies is_digit(#[trigger] d[j]) by {
            assert(d[j] == value@[j + start]);
        }
    }
    let mut acc: u32 = 0;
    let mut k: usize = start;
    while k < value.len()
        invariant
            start <= k <= value@.len(),
            d == port_digits(value@),
            d =~= value@.subrange(start as int, value@.len() as int),
            all_digits(d),
            acc as int == decimal(d.subrange(0, k - start)),
            acc <= 65535,
        decreases value.len() - k,
    {
        assert(d.subrange(0, k + 1 - start).drop_last() =~= d.subrange(0, k - start));
        assert(is_digit(d[k - start]));
        assert(d[k - start] == value@[k as int]);
        let next = acc * 10 + (value[k] - 48) as u32;
        if next > 65535 {
            proof {
                lemma_decimal_grows(d, k + 1 - start);
            }
            return Err(PortError::OutOfRange);
        }
        acc = next;
        k = k + 1;
    }
    assert(d.subrange(0, d.len() as int) =~= d);
    Ok(acc as u16)
}

/// The decimal text of a number, without leading zeros ("0" for zero).
pub open spec fn decimal_text(n: nat) -> Seq<u8>
    decreases n,
{
    if n < 10 {
        seq![(48 + n) as u8]
    } else {
        decimal_text(n / 10).push((48 + n % 10) as u8)
    }
}

proof fn lemma_decimal_text(n: nat)
    ensures
        decimal_text(n).len() > 0,
        all_digits(decimal_text(n)),
        decimal(decimal_text(n)) == n,
        decimal_text(n)[0] != 43,
    decreases n,
{
    if n >= 10 {
        lemma_decimal_text(n / 10);
        let t = decimal_text(n / 10);
        assert(t.push((48 + n % 10) as u8).drop_last() =~= t);
        assert(n % 10 < 10);
        assert((n / 10) * 10 + n % 10 == n) by {
            vstd::arithmetic::div_mod::lemma_fundamental_div_mod(n as int, 10);
        }
        let d = (48 + n % 10) as u8;
        assert(d as int == 48 + n % 10);
        let u = t.push(d);
        assert(u.last() == d);
        assert(decimal(u) == decimal(u.drop_last()) * 10 + (u.last() - 48));
        assert forall|i: int| 0 <= i < t.len() + 1 implies is_digit(#[trigger] t.push((48 + n % 10) as u8)[i]) by {
            if i < t.len() {
                assert(is_digit(t[i]));
            }
        }
    } else {
        let d = (48 + n) as u8;
        assert(d as int == 48 + n);
        let u = seq![d];
        assert(u.drop_last() =~= Seq::<u8>::empty());
        assert(u.last() == d);
        assert(decimal(u) == decimal(u.drop_last()) * 10 + (u.last() - 48));
        assert(is_digit(u[0]));
    }
}

/// What `parse_port` gives for a list of settings.
pub open spec fn port_setting(entries: Seq<(Seq<u8>, Seq<u8>)>) -> Result<u16, PortError> {
    match find_key(entries, port_key(), entries.len()) {
        Some(i) => port_of(entries[i].1),
        None => Err(PortError::Missing),
    }
}

/// Reads the `port` setting: the last one, if there are several.
pub fn parse_port(config: &Vec<ConfigEntry>) -> (r: Result<u16, PortError>)
    ensures
        r == port_setting(pairs_of(config@)),
{
    let key: Vec<u8> = vec![112u8, 111u8, 114u8, 116u8];
    assert(key@ =~= port_key());
    match lookup(config, &key) {
        Some(i) => parse_port_value(&config[i].value),
        None => Err(PortError::Missing),
    }
}

/// Writing a port's decimal text back as the last `port` setting makes
/// `parse_port` read that very port again, whatever the other settings are.
pub proof fn lemma_port_round_trip(entries: Seq<(Seq<u8>, Seq<u8>)>, n: u16)
    ensures
        port_setting(entries.push((port_key(), decimal_text(n as nat)))) == Ok::<u16, PortError>(n),
{
    let e = entries.push((port_key(), decimal_text(n as nat)));
    lemma_decimal_text(n as nat);
    assert(find_key(e, port_key(), e.len()) == Some(entries.len() as int));
    assert(port_digits(decimal_text(n as nat)) == decimal_text(n as nat));
}

/// Why a server configuration was rejected.
#[derive(Debug)]
pub enum RunError {
    Malformed(MalformedLine),
    Port(PortError),
    MissingHost,
    Server(String),
}

/// Reads a server configuration and checks the address it names; on success
/// returns the host and the port.
pub fn run(lines: &Vec<Vec<u8>>) -> (r: Result<(Vec<u8>, u16), RunError>)
    ensures
        (exists|k: int| 0 <= k < lines@.len() && !has_eq(#[trigger] lines@[k]@)) <==> r matches Err(RunError::Malformed(_)),
        r matches Err(RunError::Malformed(m)) ==> m.line < lines@.len() && !has_eq(lines@[m.line as int]@) && (forall|k: int|
            0 <= k < m.line ==> #[trigger] has_eq(lines@[k]@)),
        (forall|k: int| 0 <= k < lines@.len() ==> has_eq(#[trigger] lines@[k]@)) ==> {
            let s = settings(lines@);
            match port_setting(s) {
                Err(e) => r == Err::<(Vec<u8>, u16), RunError>(RunError::Port(e)),
                Ok(p) => match find_key(s, host_key(), s.len()) {
                    None => r matches Err(RunError::MissingHost),
                    Some(h) => if s[h].1.len() == 0 {
                        r matches Err(RunError::Server(e)) && e@ == "host is empty"@
                    } else if p == 0 {
                        r matches Err(RunError::Server(e)) && e@ == "invalid port"@
                    } else {
                        r matches Ok((host, port)) && host@ == s[h].1 && port == p
                    },
                },
            }
        },
{
    let config = match read_config(lines) {
        Ok(c) => c,
        Err(m) => {
            return Err(RunError::Malformed(m));
        },
    };
    let port = match parse_port(&config) {
        Ok(p) => p,
        Err(e) => {
            return Err(RunError::Port(e));
        },
    };
    let key: Vec<u8> = vec![104u8, 111u8, 115u8, 116u8];
    assert(key@ =~= host_key());
    let host = match lookup(&config, &key) {
        Some(i) => config[i].value.clone(),
        None => {
            return Err(RunError::MissingHost);
        },
    };
    match connect_to_server(host.as_slice(), port) {
        Ok(()) => Ok((host, port)),
        Err(e) => Err(RunError::Server(e)),
    }
}

} // verus!
