//! The JSON wire format: column bindings, record deserialization and
//! record serialization.
//!
//! An input record is one JSON object of the shape
//! `{"insert": {...}}` or `{"delete": {...}}`: the verb picks the weight
//! (`+1` or `-1`) and the inner object gives one column value per key.
//! The accepted subset is spelled out by the `*_spec` functions: ASCII
//! text, string values without escape sequences, 64-bit integers,
//! booleans and nulls.  Each executable parser returns exactly what its
//! spec says, so a malformed record is rejected deterministically and
//! never poisons later records.

use vstd::prelude::*;

verus! {

/// How one column of a row binds to a JSON key.
#[derive(Debug)]
pub enum JsonColumn {
    Normal { key: String },
    DateTime { key: String, format: String },
}

/// The model of a [`JsonColumn`].
pub enum JsonColumnV {
    Normal { key: Seq<char> },
    DateTime { key: Seq<char>, format: Seq<char> },
}

impl JsonColumnV {
    pub open spec fn key_spec(self) -> Seq<char> {
        match self {
            JsonColumnV::Normal { key } => key,
            JsonColumnV::DateTime { key, .. } => key,
        }
    }
}

impl View for JsonColumn {
    type V = JsonColumnV;

    open spec fn view(&self) -> JsonColumnV {
        match self {
            JsonColumn::Normal { key } => JsonColumnV::Normal { key: key@ },
            JsonColumn::DateTime { key, format } => JsonColumnV::DateTime {
                key: key@,
                format: format@,
            },
        }
    }
}

impl DeepView for JsonColumn {
    type V = JsonColumnV;

    open spec fn deep_view(&self) -> JsonColumnV {
        self@
    }
}

impl Clone for JsonColumn {
    fn clone(&self) -> (r: Self)
        ensures
            r@ == self@,
    {
        match self {
            JsonColumn::Normal { key } => JsonColumn::Normal { key: key.clone() },
            JsonColumn::DateTime { key, format } => JsonColumn::DateTime {
                key: key.clone(),
                format: format.clone(),
            },
        }
    }
}

impl JsonColumn {
    /// A column bound to a plain JSON key.
    pub fn normal(key: &str) -> (r: Self)
        ensures
            r matches JsonColumn::Normal { key: k } && k@ == key@,
    {
        JsonColumn::Normal { key: key.to_owned() }
    }

    /// A column bound to a JSON key holding a formatted date or time.
    pub fn datetime(key: &str, format: &str) -> (r: Self)
        ensures
            r matches JsonColumn::DateTime { key: k, format: f } && k@ == key@ && f@ == format@,
    {
        JsonColumn::DateTime { key: key.to_owned(), format: format.to_owned() }
    }

    /// The JSON key this column reads from.
    pub fn key(&self) -> (r: &str)
        ensures
            r@ == self@.key_spec(),
    {
        match self {
            JsonColumn::Normal { key } => key.as_str(),
            JsonColumn::DateTime { key, .. } => key.as_str(),
        }
    }

    /// The date/time format, when the column has one.
    pub fn format(&self) -> (r: Option<&str>)
        ensures
            match self@ {
                JsonColumnV::DateTime { format, .. } => r matches Some(f) && f@ == format,
                JsonColumnV::Normal { .. } => r is None,
            },
    {
        if let JsonColumn::DateTime { format, .. } = self {
            Some(format.as_str())
        } else {
            None
        }
    }
}

/// JSON insignificant whitespace.
pub open spec fn is_ws(b: u8) -> bool {
    b == 32 || b == 9 || b == 10 || b == 13
}

/// A byte accepted inside a string literal: printable ASCII except the
/// quote and the backslash (escape sequences are not accepted).
pub open spec fn is_str_byte(b: u8) -> bool {
    32 <= b <= 126 && b != 34 && b != 92
}

pub open spec fn is_digit(b: u8) -> bool {
    48 <= b <= 57
}

/// The first position at or after `i` that does not hold whitespace.
pub open spec fn skip_ws_spec(s: Seq<u8>, i: int) -> int
    decreases s.len() - i,
    when 0 <= i <= s.len()
{
    if i < s.len() && is_ws(s[i]) {
        skip_ws_spec(s, i + 1)
    } else {
        i
    }
}

/// The first position at or after `i` that cannot continue a string
/// literal.
pub open spec fn str_end_spec(s: Seq<u8>, i: int) -> int
    decreases s.len() - i,
    when 0 <= i <= s.len()
{
    if i < s.len() && is_str_byte(s[i]) {
        str_end_spec(s, i + 1)
    } else {
        i
    }
}

/// The characters of the bytes `s[i..j)`.
pub open spec fn chars_of_spec(s: Seq<u8>, i: int, j: int) -> Seq<char>
    decreases j - i,
    when i <= j
{
    if j <= i {
        Seq::empty()
    } else {
        chars_of_spec(s, i, j - 1).push(s[j - 1] as char)
    }
}

/// A parsed string literal: its characters and the position after the
/// closing quote.
pub open spec fn parse_string_spec(s: Seq<u8>, i: int) -> Option<(Seq<char>, int)> {
    if 0 <= i < s.len() && s[i] == 34 {
        let e = str_end_spec(s, i + 1);
        if e < s.len() && s[e] == 34 {
            Some((chars_of_spec(s, i + 1, e), e + 1))
        } else {
            None
        }
    } else {
        None
    }
}

/// Relies on `String::push`: appends one character at the end of the
/// string.
#[verifier::external_body]
fn push_char(s: &mut String, c: char)
    ensures
        final (s)@ == old(s)@.push(c),
{
    s.push(c);
}

/// Skip insignificant whitespace.
fn skip_ws(data: &[u8], i: usize) -> (r: usize)
    requires
        i <= data@.len(),
    ensures
        r == skip_ws_spec(data@, i as int),
        i <= r <= data@.len(),
    decreases data@.len() - i,
{
    if i < data.len() && (data[i] == 32 || data[i] == 9 || data[i] == 10 || data[i] == 13) {
        skip_ws(data, i + 1)
    } else {
        i
    }
}

fn is_str_byte_exec(b: u8) -> (r: bool)
    ensures
        r == is_str_byte(b),
{
    32 <= b && b <= 126 && b != 34 && b != 92
}

/// Find the end of a run of string-literal bytes.
fn str_end(data: &[u8], i: usize) -> (r: usize)
    requires
        i <= data@.len(),
    ensures
        r == str_end_spec(data@, i as int),
        i <= r <= data@.len(),
    decreases data@.len() - i,
{
    if i < data.len() && is_str_byte_exec(data[i]) {
        str_end(data, i + 1)
    } else {
        i
    }
}

/// Collect the characters of the bytes `data[i..j)`.
fn chars_of(data: &[u8], i: usize, j: usize) -> (r: String)
    requires
        i <= j <= data@.len(),
    ensures
        r@ == chars_of_spec(data@, i as int, j as int),
    decreases j - i,
{
    if j <= i {
        String::new()
    } else {
        let mut r = chars_of(data, i, j - 1);
        push_char(&mut r, data[j - 1] as char);
        r
    }
}

/// Parse one string literal starting at `i`.
fn parse_string(data: &[u8], i: usize) -> (r: Option<(String, usize)>)
    requires
        i <= data@.len(),
    ensures
        match r {
            Some((v, j)) => {
                &&& parse_string_spec(data@, i as int) matches Some((sv, sj))
                &&& v@ == sv
                &&& j as int == sj
                &&& i < j <= data@.len()
            },
            None => parse_string_spec(data@, i as int) is None,
        },
{
    if i < data.len() && data[i] == 34 {
        let e = str_end(data, i + 1);
        if e < data.len() && data[e] == 34 {
            let v = chars_of(data, i + 1, e);
            Some((v, e + 1))
        } else {
            None
        }
    } else {
        None
    }
}

/// Ten to the `n`-th power.
pub open spec fn pow10(n: nat) -> int
    decreases n,
{
    if n == 0 {
        1
    } else {
        10 * pow10((n - 1) as nat)
    }
}

/// The first position at or after `i` that does not hold a digit.
pub open spec fn digits_end_spec(s: Seq<u8>, i: int) -> int
    decreases s.len() - i,
    when 0 <= i <= s.len()
{
    if i < s.len() && is_digit(s[i]) {
        digits_end_spec(s, i + 1)
    } else {
        i
    }
}

pub proof fn lemma_digits_run(s: Seq<u8>, i: int)
    requires
        0 <= i <= s.len(),
    ensures
        i <= digits_end_spec(s, i) <= s.len(),
        forall|p: int| i <= p < digits_end_spec(s, i) ==> is_digit(s[p]),
    decreases s.len() - i,
{
    if i < s.len() && is_digit(s[i]) {
        lemma_digits_run(s, i + 1);
    }
}

/// The value of the digit run `s[i..j)`, most significant first.
pub open spec fn digits_val_spec(s: Seq<u8>, i: int, j: int) -> int
    decreases j - i,
    when i <= j
{
    if j <= i {
        0
    } else {
        digits_val_spec(s, i, j - 1) * 10 + (s[j - 1] - 48)
    }
}

pub proof fn lemma_digits_val_bound(s: Seq<u8>, i: int, j: int)
    requires
        0 <= i <= j <= s.len(),
        forall|p: int| i <= p < j ==> is_digit(s[p]),
    ensures
        0 <= digits_val_spec(s, i, j) < pow10((j - i) as nat),
    decreases j - i,
{
    if j > i {
        lemma_digits_val_bound(s, i, j - 1);
        assert(pow10((j - i) as nat) == 10 * pow10((j - 1 - i) as nat));
    }
}

/// A parsed integer literal: an optional minus sign, then at most 19
/// digits, with a value that fits `i64`; and the position after it.
pub open spec fn parse_int_spec(s: Seq<u8>, i: int) -> Option<(int, int)> {
    if 0 <= i <= s.len() {
        let neg = i < s.len() && s[i] == 45;
        let i1 = if neg {
            i + 1
        } else {
            i
        };
        let e = digits_end_spec(s, i1);
        if e == i1 || e - i1 > 19 {
            None
        } else {
            let m = digits_val_spec(s, i1, e);
            let v = if neg {
                -m
            } else {
                m
            };
            if v < i64::MIN as int || v > i64::MAX as int {
                None
            } else {
                Some((v, e))
            }
        }
    } else {
        None
    }
}

fn is_digit_exec(b: u8) -> (r: bool)
    ensures
        r == is_digit(b),
{
    48 <= b && b <= 57
}

/// Find the end of a digit run.
fn digits_end(data: &[u8], i: usize) -> (r: usize)
    requires
        i <= data@.len(),
    ensures
        r == digits_end_spec(data@, i as int),
        i <= r <= data@.len(),
    decreases data@.len() - i,
{
    if i < data.len() && is_digit_exec(data[i]) {
        digits_end(data, i + 1)
    } else {
        i
    }
}

/// The value of the digit run `data[i..j)`.
fn digits_val(data: &[u8], i: usize, j: usize) -> (r: i128)
    requires
        i <= j <= data@.len(),
        j - i <= 19,
        forall|p: int| i <= p < j ==> is_digit(data@[p]),
    ensures
        r == digits_val_spec(data@, i as int, j as int),
        0 <= r < pow10((j - i) as nat),
    decreases j - i,
{
    if j <= i {
        0
    } else {
        let prev = digits_val(data, i, j - 1);
        proof {
            assert(pow10((j - i) as nat) == 10 * pow10((j - i - 1) as nat));
            assert(pow10(18) == 1000000000000000000) by {
                reveal_with_fuel(pow10, 19);
            }
            lemma_pow10_mono((j - i - 1) as nat, 18);
        }
        prev * 10 + (data[j - 1] - 48) as i128
    }
}

proof fn lemma_pow10_pos(n: nat)
    ensures
        pow10(n) >= 1,
    decreases n,
{
    if n > 0 {
        lemma_pow10_pos((n - 1) as nat);
    }
}

proof fn lemma_pow10_mono(a: nat, b: nat)
    requires
        a <= b,
    ensures
        pow10(a) <= pow10(b),
    decreases b,
{
    if a < b {
        lemma_pow10_mono(a, (b - 1) as nat);
        lemma_pow10_pos((b - 1) as nat);
    }
}

/// Parse one integer literal starting at `i`.
fn parse_int(data: &[u8], i: usize) -> (r: Option<(i64, usize)>)
    requires
        i <= data@.len(),
    ensures
        match r {
            Some((v, j)) => {
                &&& parse_int_spec(data@, i as int) matches Some((sv, sj))
                &&& v as int == sv
                &&& j as int == sj
                &&& i < j <= data@.len()
            },
            None => parse_int_spec(data@, i as int) is None,
        },
{
    let neg = i < data.len() && data[i] == 45;
    let i1 = if neg {
        i + 1
    } else {
        i
    };
    let e = digits_end(data, i1);
    if e == i1 || e - i1 > 19 {
        None
    } else {
        proof {
            lemma_digits_run(data@, i1 as int);
            lemma_digits_val_bound(data@, i1 as int, e as int);
            assert(pow10(19) == 10000000000000000000) by {
                reveal_with_fuel(pow10, 20);
            }
            lemma_pow10_mono((e - i1) as nat, 19);
        }
        let m = digits_val(data, i1, e);
        let v: i128 = if neg {
            -m
        } else {
            m
        };
        if v < i64::MIN as i128 || v > i64::MAX as i128 {
            None
        } else {
            Some((v as i64, e))
        }
    }
}

/// A parsed value: a string, an integer, a boolean or a null.
pub open spec fn parse_value_spec(s: Seq<u8>, i: int) -> Option<(crate::value::ValueV, int)> {
    if 0 <= i < s.len() {
        if s[i] == 34 {
            match parse_string_spec(s, i) {
                Some((cs, j)) => Some((crate::value::ValueV::Str(cs), j)),
                None => None,
            }
        } else if s[i] == 45 || is_digit(s[i]) {
            match parse_int_spec(s, i) {
                Some((v, j)) => Some((crate::value::ValueV::Int(v), j)),
                None => None,
            }
        } else if s[i] == 116 {
            if i + 4 <= s.len() && s[i + 1] == 114 && s[i + 2] == 117 && s[i + 3] == 101 {
                Some((crate::value::ValueV::Bool(true), i + 4))
            } else {
                None
            }
        } else if s[i] == 102 {
            if i + 5 <= s.len() && s[i + 1] == 97 && s[i + 2] == 108 && s[i + 3] == 115 && s[i + 4]
                == 101 {
                Some((crate::value::ValueV::Bool(false), i + 5))
            } else {
                None
            }
        } else if s[i] == 110 {
            if i + 4 <= s.len() && s[i + 1] == 117 && s[i + 2] == 108 && s[i + 3] == 108 {
                Some((crate::value::ValueV::Null, i + 4))
            } else {
                None
            }
        } else {
            None
        }
    } else {
        None
    }
}

/// Parse one value starting at `i`.
fn parse_value(data: &[u8], i: usize) -> (r: Option<(crate::value::Value, usize)>)
    requires
        i <= data@.len(),
    ensures
        match r {
            Some((v, j)) => {
                &&& parse_value_spec(data@, i as int) matches Some((sv, sj))
                &&& v@ == sv
                &&& j as int == sj
                &&& i < j <= data@.len()
            },
            None => parse_value_spec(data@, i as int) is None,
        },
{
    if i >= data.len() {
        return None;
    }
    let b = data[i];
    if b == 34 {
        match parse_string(data, i) {
            Some((s, j)) => Some((crate::value::Value::Str(s), j)),
            None => None,
        }
    } else if b == 45 || is_digit_exec(b) {
        match parse_int(data, i) {
            Some((v, j)) => Some((crate::value::Value::Int(v), j)),
            None => None,
        }
    } else if b == 116 {
        if data.len() - i >= 4 && data[i + 1] == 114 && data[i + 2] == 117 && data[i + 3] == 101 {
            Some((crate::value::Value::Bool(true), i + 4))
        } else {
            None
        }
    } else if b == 102 {
        if data.len() - i >= 5 && data[i + 1] == 97 && data[i + 2] == 108 && data[i + 3] == 115
            && data[i + 4] == 101 {
            Some((crate::value::Value::Bool(false), i + 5))
        } else {
            None
        }
    } else if b == 110 {
        if data.len() - i >= 4 && data[i + 1] == 117 && data[i + 2] == 108 && data[i + 3] == 108 {
            Some((crate::value::Value::Null, i + 4))
        } else {
            None
        }
    } else {
        None
    }
}

/// The character of the decimal digit `d`.
pub open spec fn digit_char(d: int) -> char {
    ((48 + d) as u8) as char
}

/// The decimal digits of `n >= 0`, most significant first.
pub open spec fn dec_chars(n: int) -> Seq<char>
    decreases n,
    when n >= 0
{
    if n < 10 {
        seq![digit_char(n)]
    } else {
        dec_chars(n / 10).push(digit_char(n % 10))
    }
}

/// The decimal rendering of `n`, with a leading minus when negative.
pub open spec fn int_chars(n: int) -> Seq<char> {
    if n < 0 {
        seq!['-'] + dec_chars(-n)
    } else {
        dec_chars(n)
    }
}

/// The decimal digits of `m >= 0`.
fn render_dec(m: i128) -> (r: String)
    requires
        0 <= m,
    ensures
        r@ == dec_chars(m as int),
    decreases m,
{
    if m < 10 {
        let mut s = String::new();
        push_char(&mut s, (48 + m as u8) as char);
        s
    } else {
        let mut s = render_dec(m / 10);
        push_char(&mut s, (48 + (m % 10) as u8) as char);
        s
    }
}

/// Render an integer in decimal.
pub fn render_i64(n: i64) -> (r: String)
    ensures
        r@ == int_chars(n as int),
{
    if n < 0 {
        let m: i128 = -(n as i128);
        let digits = render_dec(m);
        let r = "-".to_owned().concat(digits.as_str());
        proof {
            assert(r@ == seq!['-'] + dec_chars(m as int)) by {
                reveal_strlit("-");
                assert("-"@ =~= seq!['-']);
            }
        }
        r
    } else {
        render_dec(n as i128)
    }
}

/// One parsed member of the record object: a key and its value.
pub type JsonPairV = (Seq<char>, crate::value::ValueV);

/// A parsed `"key": value` member.
pub open spec fn parse_pair_spec(s: Seq<u8>, i: int) -> Option<(JsonPairV, int)> {
    match parse_string_spec(s, i) {
        None => None,
        Some((key, j)) => if 0 <= j <= s.len() {
            let j1 = skip_ws_spec(s, j);
            if j1 < s.len() && s[j1] == 58 {
                let j2 = skip_ws_spec(s, j1 + 1);
                match parse_value_spec(s, j2) {
                    None => None,
                    Some((v, j3)) => Some(((key, v), j3)),
                }
            } else {
                None
            }
        } else {
            None
        },
    }
}

/// One or more comma-separated members followed by the closing brace.
/// The checks that a member's end lies beyond its start never fail on a
/// parse that succeeded; they bound the recursion.
pub open spec fn parse_pair_list_spec(s: Seq<u8>, i: int) -> Option<(Seq<JsonPairV>, int)>
    decreases s.len() - i,
    when 0 <= i <= s.len()
{
    match parse_pair_spec(s, i) {
        None => None,
        Some((p, j)) => {
            if j <= i || j > s.len() {
                None
            } else {
                let j1 = skip_ws_spec(s, j);
                if j1 < s.len() && s[j1] == 125 {
                    Some((seq![p], j1 + 1))
                } else if j1 < s.len() && s[j1] == 44 {
                    let j2 = skip_ws_spec(s, j1 + 1);
                    if j2 <= i || j2 > s.len() {
                        None
                    } else {
                        match parse_pair_list_spec(s, j2) {
                            None => None,
                            Some((ps, j3)) => Some((seq![p] + ps, j3)),
                        }
                    }
                } else {
                    None
                }
            }
        },
    }
}

/// The members of the record object, `i` standing just after its `{`.
pub open spec fn parse_object_spec(s: Seq<u8>, i: int) -> Option<(Seq<JsonPairV>, int)> {
    if 0 <= i <= s.len() {
        let i1 = skip_ws_spec(s, i);
        if i1 < s.len() && s[i1] == 125 {
            Some((Seq::empty(), i1 + 1))
        } else {
            parse_pair_list_spec(s, i1)
        }
    } else {
        None
    }
}

/// A whole record: `{"insert": {...}}` or `{"delete": {...}}`, with
/// nothing but whitespace around it.  Yields the verb (`true` for an
/// insertion) and the members of the inner object.
pub open spec fn parse_record_spec(s: Seq<u8>) -> Option<(bool, Seq<JsonPairV>)> {
    let i0 = skip_ws_spec(s, 0);
    if i0 < s.len() && s[i0] == 123 {
        let i1 = skip_ws_spec(s, i0 + 1);
        match parse_string_spec(s, i1) {
            None => None,
            Some((verb, j)) => {
                if (verb == "insert"@ || verb == "delete"@) && 0 <= j <= s.len() {
                    let j1 = skip_ws_spec(s, j);
                    if j1 < s.len() && s[j1] == 58 {
                        let j2 = skip_ws_spec(s, j1 + 1);
                        if j2 < s.len() && s[j2] == 123 {
                            match parse_object_spec(s, j2 + 1) {
                                None => None,
                                Some((pairs, j3)) => {
                                    if 0 <= j3 <= s.len() {
                                        let j4 = skip_ws_spec(s, j3);
                                        if j4 < s.len() && s[j4] == 125 {
                                            let j5 = skip_ws_spec(s, j4 + 1);
                                            if j5 == s.len() {
                                                Some((verb == "insert"@, pairs))
                                            } else {
                                                None
                                            }
                                        } else {
                                            None
                                        }
                                    } else {
                                        None
                                    }
                                },
                            }
                        } else {
                            None
                        }
                    } else {
                        None
                    }
                } else {
                    None
                }
            },
        }
    } else {
        None
    }
}

/// Parse one member starting at `i`.
fn parse_pair(data: &[u8], i: usize) -> (r: Option<((String, crate::value::Value), usize)>)
    requires
        i <= data@.len(),
    ensures
        match r {
            Some((p, j)) => {
                &&& parse_pair_spec(data@, i as int) matches Some((sp, sj))
                &&& p.deep_view() == sp
                &&& j as int == sj
                &&& i < j <= data@.len()
            },
            None => parse_pair_spec(data@, i as int) is None,
        },
{
    match parse_string(data, i) {
        None => None,
        Some((key, j)) => {
            let j1 = skip_ws(data, j);
            if j1 < data.len() && data[j1] == 58 {
                let j2 = skip_ws(data, j1 + 1);
                match parse_value(data, j2) {
                    None => None,
                    Some((v, j3)) => Some(((key, v), j3)),
                }
            } else {
                None
            }
        },
    }
}

/// Parse the members of the record object and its closing brace.
fn parse_pair_list(data: &[u8], i: usize) -> (r: Option<(Vec<(String, crate::value::Value)>, usize)>)
    requires
        i <= data@.len(),
    ensures
        match r {
            Some((ps, j)) => {
                &&& parse_pair_list_spec(data@, i as int) matches Some((sps, sj))
                &&& ps.deep_view() == sps
                &&& j as int == sj
                &&& i < j <= data@.len()
            },
            None => parse_pair_list_spec(data@, i as int) is None,
        },
    decreases data@.len() - i,
{
    match parse_pair(data, i) {
        None => None,
        Some((p, j)) => {
            let j1 = skip_ws(data, j);
            if j1 < data.len() && data[j1] == 125 {
                let mut ps: Vec<(String, crate::value::Value)> = Vec::new();
                let ghost pv = p.deep_view();
                ps.push(p);
                proof {
                    assert(ps.deep_view() =~= seq![pv]);
                }
                Some((ps, j1 + 1))
            } else if j1 < data.len() && data[j1] == 44 {
                let j2 = skip_ws(data, j1 + 1);
                match parse_pair_list(data, j2) {
                    None => None,
                    Some((mut ps, j3)) => {
                        let ghost pv = p.deep_view();
                        let ghost tail = ps.deep_view();
                        ps.insert(0, p);
                        proof {
                            assert(ps.deep_view() =~= seq![pv] + tail);
                        }
                        Some((ps, j3))
                    },
                }
            } else {
                None
            }
        },
    }
}

/// Parse the record object, `i` standing just after its `{`.
fn parse_object(data: &[u8], i: usize) -> (r: Option<(Vec<(String, crate::value::Value)>, usize)>)
    requires
        i <= data@.len(),
    ensures
        match r {
            Some((ps, j)) => {
                &&& parse_object_spec(data@, i as int) matches Some((sps, sj))
                &&& ps.deep_view() == sps
                &&& j as int == sj
                &&& i < j <= data@.len()
            },
            None => parse_object_spec(data@, i as int) is None,
        },
{
    let i1 = skip_ws(data, i);
    if i1 < data.len() && data[i1] == 125 {
        let ps: Vec<(String, crate::value::Value)> = Vec::new();
        proof {
            assert(ps.deep_view() =~= Seq::<JsonPairV>::empty());
        }
        Some((ps, i1 + 1))
    } else {
        parse_pair_list(data, i1)
    }
}

/// Parse one whole record.
pub fn parse_record(data: &[u8]) -> (r: Option<(bool, Vec<(String, crate::value::Value)>)>)
    ensures
        match r {
            Some((ins, ps)) => {
                &&& parse_record_spec(data@) matches Some((sins, sps))
                &&& ins == sins
                &&& ps.deep_view() == sps
            },
            None => parse_record_spec(data@) is None,
        },
{
    let i0 = skip_ws(data, 0);
    if !(i0 < data.len() && data[i0] == 123) {
        return None;
    }
    let i1 = skip_ws(data, i0 + 1);
    match parse_string(data, i1) {
        None => None,
        Some((verb, j)) => {
            let is_insert = verb == "insert".to_owned();
            let is_delete = verb == "delete".to_owned();
            if !(is_insert || is_delete) {
                return None;
            }
            let j1 = skip_ws(data, j);
            if !(j1 < data.len() && data[j1] == 58) {
                return None;
            }
            let j2 = skip_ws(data, j1 + 1);
            if !(j2 < data.len() && data[j2] == 123) {
                return None;
            }
            match parse_object(data, j2 + 1) {
                None => None,
                Some((pairs, j3)) => {
                    let j4 = skip_ws(data, j3);
                    if !(j4 < data.len() && data[j4] == 125) {
                        return None;
                    }
                    let j5 = skip_ws(data, j4 + 1);
                    if j5 == data.len() {
                        Some((is_insert, pairs))
                    } else {
                        None
                    }
                },
            }
        },
    }
}

/// The value of the first member carrying `key`, if any.
pub open spec fn lookup_pair_spec(pairs: Seq<JsonPairV>, key: Seq<char>) -> Option<
    crate::value::ValueV,
>
    decreases pairs.len(),
{
    if pairs.len() == 0 {
        None
    } else if pairs[0].0 == key {
        Some(pairs[0].1)
    } else {
        lookup_pair_spec(pairs.drop_first(), key)
    }
}

/// The row read off the members: one value per schema column, in the
/// schema's order; `None` when a column's key is missing.
pub open spec fn row_from_pairs_spec(schema: Seq<JsonColumnV>, pairs: Seq<JsonPairV>) -> Option<
    Seq<crate::value::ValueV>,
>
    decreases schema.len(),
{
    if schema.len() == 0 {
        Some(Seq::empty())
    } else {
        match row_from_pairs_spec(schema.drop_last(), pairs) {
            None => None,
            Some(r) => match lookup_pair_spec(pairs, schema.last().key_spec()) {
                None => None,
                Some(v) => Some(r.push(v)),
            },
        }
    }
}

/// Find the value of `key` among the members.
fn lookup_pair(pairs: &Vec<(String, crate::value::Value)>, key: &str) -> (r: Option<
    crate::value::Value,
>)
    ensures
        match r {
            Some(v) => {
                &&& lookup_pair_spec(pairs.deep_view(), key@) matches Some(sv)
                &&& v@ == sv
            },
            None => lookup_pair_spec(pairs.deep_view(), key@) is None,
        },
{
    let n = pairs.len();
    proof {
        assert(pairs.deep_view().skip(0) =~= pairs.deep_view());
    }
    for i in 0..n
        invariant
            n == pairs@.len(),
            lookup_pair_spec(pairs.deep_view(), key@) == lookup_pair_spec(
                pairs.deep_view().skip(i as int),
                key@,
            ),
    {
        proof {
            assert(pairs.deep_view().skip(i as int).drop_first() =~= pairs.deep_view().skip(
                i + 1,
            ));
            assert(pairs.deep_view().skip(i as int)[0] == pairs.deep_view()[i as int]);
        }
        if pairs[i].0 == key.to_owned() {
            let v = pairs[i].1.clone();
            return Some(v);
        }
    }
    proof {
        assert(pairs.deep_view().skip(n as int) =~= Seq::<JsonPairV>::empty());
    }
    None
}

/// Read one row off the members, one value per schema column.
fn row_from_pairs(schema: &Vec<JsonColumn>, pairs: &Vec<(String, crate::value::Value)>) -> (r:
    Option<crate::value::Row>)
    ensures
        match r {
            Some(row) => {
                &&& row_from_pairs_spec(schema.deep_view(), pairs.deep_view()) matches Some(sr)
                &&& row@ == sr
            },
            None => row_from_pairs_spec(schema.deep_view(), pairs.deep_view()) is None,
        },
{
    let mut row = crate::value::Row::new();
    let n = schema.len();
    for i in 0..n
        invariant
            n == schema@.len(),
            row_from_pairs_spec(schema.deep_view().take(i as int), pairs.deep_view()) matches Some(
                sr,
            ) && row@ == sr,
    {
        proof {
            assert(schema.deep_view().take(i + 1).drop_last() =~= schema.deep_view().take(
                i as int,
            ));
            assert(schema.deep_view().take(i + 1).last() == schema.deep_view()[i as int]);
        }
        match lookup_pair(pairs, schema[i].key()) {
            None => {
                proof {
                    assert(row_from_pairs_spec(schema.deep_view().take(i + 1), pairs.deep_view())
                        is None);
                    lemma_row_missing_column(schema.deep_view(), pairs.deep_view(), i + 1);
                }
                return None;
            },
            Some(v) => {
                row.push(v);
            },
        }
    }
    proof {
        assert(schema.deep_view().take(n as int) =~= schema.deep_view());
    }
    Some(row)
}

/// Once a prefix of the schema fails to bind, the whole schema fails.
proof fn lemma_row_missing_column(schema: Seq<JsonColumnV>, pairs: Seq<JsonPairV>, i: int)
    requires
        0 <= i <= schema.len(),
        row_from_pairs_spec(schema.take(i), pairs) is None,
    ensures
        row_from_pairs_spec(schema, pairs) is None,
    decreases schema.len() - i,
{
    if i < schema.len() {
        assert(schema.take(i + 1).drop_last() =~= schema.take(i));
        lemma_row_missing_column(schema, pairs, i + 1);
    } else {
        assert(schema.take(i) =~= schema);
    }
}

/// Deserialize one record against a schema: the verb (insertion or
/// deletion) and the decoded row.
pub fn deserialize_record(data: &[u8], schema: &Vec<JsonColumn>) -> (r: Option<(
    bool,
    crate::value::Row,
)>)
    ensures
        match r {
            Some((ins, row)) => {
                &&& deserialize_record_spec(data@, schema.deep_view()) matches Some((sins, srow))
                &&& ins == sins
                &&& row@ == srow
            },
            None => deserialize_record_spec(data@, schema.deep_view()) is None,
        },
{
    match parse_record(data) {
        None => None,
        Some((ins, pairs)) => {
            match row_from_pairs(schema, &pairs) {
                None => None,
                Some(row) => Some((ins, row)),
            }
        },
    }
}

/// The members of one bare row object `{...}`, with nothing but
/// whitespace around it.
pub open spec fn parse_row_pairs_spec(s: Seq<u8>) -> Option<Seq<JsonPairV>> {
    let i0 = skip_ws_spec(s, 0);
    if i0 < s.len() && s[i0] == 123 {
        match parse_object_spec(s, i0 + 1) {
            None => None,
            Some((pairs, j)) => {
                if 0 <= j <= s.len() {
                    let j1 = skip_ws_spec(s, j);
                    if j1 == s.len() {
                        Some(pairs)
                    } else {
                        None
                    }
                } else {
                    None
                }
            },
        }
    } else {
        None
    }
}

/// What deserializing a bare row object yields for a schema.
pub open spec fn deserialize_row_spec(s: Seq<u8>, schema: Seq<JsonColumnV>) -> Option<
    Seq<crate::value::ValueV>,
> {
    match parse_row_pairs_spec(s) {
        None => None,
        Some(pairs) => row_from_pairs_spec(schema, pairs),
    }
}

/// Deserialize one bare row object against a schema.
pub fn deserialize_row(data: &[u8], schema: &Vec<JsonColumn>) -> (r: Option<crate::value::Row>)
    ensures
        match r {
            Some(row) => {
                &&& deserialize_row_spec(data@, schema.deep_view()) matches Some(srow)
                &&& row@ == srow
            },
            None => deserialize_row_spec(data@, schema.deep_view()) is None,
        },
{
    let i0 = skip_ws(data, 0);
    if !(i0 < data.len() && data[i0] == 123) {
        return None;
    }
    match parse_object(data, i0 + 1) {
        None => None,
        Some((pairs, j)) => {
            let j1 = skip_ws(data, j);
            if j1 != data.len() {
                return None;
            }
            match row_from_pairs(schema, &pairs) {
                None => None,
                Some(row) => Some(row),
            }
        },
    }
}

/// What deserializing a record yields: the verb and the row, or nothing
/// when the bytes are not a well-formed record for the schema.
pub open spec fn deserialize_record_spec(s: Seq<u8>, schema: Seq<JsonColumnV>) -> Option<(
    bool,
    Seq<crate::value::ValueV>,
)> {
    match parse_record_spec(s) {
        None => None,
        Some((ins, pairs)) => match row_from_pairs_spec(schema, pairs) {
            None => None,
            Some(row) => Some((ins, row)),
        },
    }
}

/// The JSON rendering of one value.
pub open spec fn json_value_chars(v: crate::value::ValueV) -> Seq<char> {
    match v {
        crate::value::ValueV::Null => "null"@,
        crate::value::ValueV::Bool(b) => if b {
            "true"@
        } else {
            "false"@
        },
        crate::value::ValueV::Int(i) => int_chars(i),
        crate::value::ValueV::Str(s) => seq!['"'] + s + seq!['"'],
    }
}

/// The members of a row object, from column `i` on.
pub open spec fn json_members_chars(
    schema: Seq<JsonColumnV>,
    row: Seq<crate::value::ValueV>,
    i: int,
) -> Seq<char>
    decreases schema.len() - i,
    when 0 <= i <= schema.len()
{
    if i >= schema.len() {
        Seq::empty()
    } else {
        seq!['"'] + schema[i].key_spec() + seq!['"', ':'] + json_value_chars(row[i]) + (if i + 1
            < schema.len() {
            seq![',']
        } else {
            Seq::empty()
        }) + json_members_chars(schema, row, i + 1)
    }
}

/// One row as a JSON object, keyed by its schema.
pub open spec fn json_row_chars(schema: Seq<JsonColumnV>, row: Seq<crate::value::ValueV>) -> Seq<
    char,
> {
    seq!['{'] + json_members_chars(schema, row, 0) + seq!['}']
}

/// One output record: the verb and the row object.
pub open spec fn json_record_chars(
    insert: bool,
    schema: Seq<JsonColumnV>,
    row: Seq<crate::value::ValueV>,
) -> Seq<char> {
    seq!['{', '"'] + (if insert {
        "insert"@
    } else {
        "delete"@
    }) + seq!['"', ':'] + json_row_chars(schema, row) + seq!['}']
}

/// Render one value as JSON.
fn render_json_value(v: &crate::value::Value) -> (r: String)
    ensures
        r@ == json_value_chars(v@),
{
    match v {
        crate::value::Value::Null => "null".to_owned(),
        crate::value::Value::Bool(b) => if *b {
            "true".to_owned()
        } else {
            "false".to_owned()
        },
        crate::value::Value::Int(i) => render_i64(*i),
        crate::value::Value::Str(s) => {
            let mut r = String::new();
            push_char(&mut r, '"');
            let r = r.concat(s.as_str());
            let mut r = r;
            push_char(&mut r, '"');
            proof {
                assert(r@ =~= seq!['"'] + s@ + seq!['"']);
            }
            r
        },
    }
}

/// Render the members of a row object, from column `i` on.
fn render_members(schema: &Vec<JsonColumn>, row: &crate::value::Row, i: usize) -> (r: String)
    requires
        row@.len() == schema.deep_view().len(),
        i <= schema@.len(),
    ensures
        r@ == json_members_chars(schema.deep_view(), row@, i as int),
    decreases schema@.len() - i,
{
    if i >= schema.len() {
        String::new()
    } else {
        let mut s = String::new();
        push_char(&mut s, '"');
        let s = s.concat(schema[i].key());
        let mut s = s;
        push_char(&mut s, '"');
        push_char(&mut s, ':');
        let s = s.concat(render_json_value(&row.values[i]).as_str());
        let mut s = s;
        if i + 1 < schema.len() {
            push_char(&mut s, ',');
        }
        let rest = render_members(schema, row, i + 1);
        let r = s.concat(rest.as_str());
        proof {
            assert(schema.deep_view()[i as int].key_spec() == (schema@[i as int])@.key_spec());
            assert(r@ =~= json_members_chars(schema.deep_view(), row@, i as int));
        }
        r
    }
}

/// Render one output record.
pub fn render_record(insert: bool, schema: &Vec<JsonColumn>, row: &crate::value::Row) -> (r:
    String)
    requires
        row@.len() == schema.deep_view().len(),
    ensures
        r@ == json_record_chars(insert, schema.deep_view(), row@),
{
    let mut s = String::new();
    push_char(&mut s, '{');
    push_char(&mut s, '"');
    let s = s.concat(if insert {
        "insert"
    } else {
        "delete"
    });
    let mut s = s;
    push_char(&mut s, '"');
    push_char(&mut s, ':');
    push_char(&mut s, '{');
    let s = s.concat(render_members(schema, row, 0).as_str());
    let mut s = s;
    push_char(&mut s, '}');
    push_char(&mut s, '}');
    proof {
        assert(s@ =~= json_record_chars(insert, schema.deep_view(), row@));
    }
    s
}

/// `n` copies of `x`, back to back.
pub open spec fn repeat_chars(x: Seq<char>, n: int) -> Seq<char>
    decreases n,
{
    if n <= 0 {
        Seq::empty()
    } else {
        repeat_chars(x, n - 1) + x
    }
}

/// Every row of the batch has one value per schema column.
pub open spec fn batch_rows_ok(schema: Seq<JsonColumnV>, entries: Seq<crate::zset::ZEntryV>) -> bool {
    forall|i: int|
        0 <= i < entries.len() ==> (#[trigger] entries[i]).0.len() == schema.len()
}

/// The wire form of a batch: for each entry, one record line per unit
/// of weight, an insertion line for positive weight and a deletion
/// line for negative.
pub open spec fn batch_chars(
    schema: Seq<JsonColumnV>,
    entries: Seq<crate::zset::ZEntryV>,
    n: int,
) -> Seq<char>
    decreases n,
{
    if n <= 0 {
        Seq::empty()
    } else {
        batch_chars(schema, entries, n - 1) + repeat_chars(
            json_record_chars(entries[n - 1].1 > 0, schema, entries[n - 1].0) + seq!['\n'],
            vstd::math::abs(entries[n - 1].1) as int,
        )
    }
}

/// Serialize a consolidated batch into record lines.  A row that does
/// not match the schema's arity fails the whole batch, and nothing is
/// emitted.
pub fn encode_batch(schema: &Vec<JsonColumn>, batch: &crate::zset::ZSet) -> (r: Option<String>)
    requires
        batch.wf(),
    ensures
        match r {
            Some(out) => batch_rows_ok(schema.deep_view(), batch@) && out@ == batch_chars(
                schema.deep_view(),
                batch@,
                batch@.len() as int,
            ),
            None => !batch_rows_ok(schema.deep_view(), batch@),
        },
{
    let mut out = String::new();
    let n = batch.len();
    for i in 0..n
        invariant
            n == batch@.len(),
            batch.wf(),
            out@ == batch_chars(schema.deep_view(), batch@, i as int),
            forall|p: int|
                0 <= p < i ==> (#[trigger] batch@[p]).0.len() == schema.deep_view().len(),
    {
        let e = batch.entry(i);
        if e.0.len() != schema.len() {
            proof {
                assert(batch@[i as int].0.len() != schema.deep_view().len());
            }
            return None;
        }
        let w = e.1;
        let insert = w > 0;
        let line = render_record(insert, schema, &e.0);
        let mut line = line;
        push_char(&mut line, '\n');
        proof {
            assert(line@ =~= json_record_chars(
                batch@[i as int].1 > 0,
                schema.deep_view(),
                batch@[i as int].0,
            ) + seq!['\n']);
            crate::zset::lemma_entry_bounded(batch@, i as int);
        }
        let mut count: i64 = if w >= 0 {
            w
        } else {
            -w
        };
        let ghost lv = line@;
        let ghost total = count as int;
        let mut done: i64 = 0;
        while done < count
            invariant
                0 <= done <= count,
                count as int == total,
                line@ == lv,
                out@ == batch_chars(schema.deep_view(), batch@, i as int) + repeat_chars(
                    lv,
                    done as int,
                ),
            decreases count - done,
        {
            out = out.concat(line.as_str());
            done = done + 1;
        }
        proof {
            assert(vstd::math::abs(batch@[i as int].1) as int == total);
            assert(out@ == batch_chars(schema.deep_view(), batch@, i + 1));
        }
    }
    Some(out)
}

} // verus!
