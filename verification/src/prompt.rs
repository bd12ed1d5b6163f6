//! Prompt-point parsing: a point is written "x,y", two decimal numbers
//! separated by a single comma. Positive (include) and negative (exclude)
//! point lists are parsed into one sequence, positives first, each group in
//! input order, failing fast on the first malformed entry.

use vstd::prelude::*;

verus! {

/// A validated prompt point: the two coordinate tokens exactly as they stood
/// in the input (each a well-formed decimal number), and the polarity.
#[derive(Debug)]
pub struct PromptPoint {
    pub x: String,
    pub y: String,
    pub is_positive: bool,
}

impl PromptPoint {
    pub open spec fn wf(&self) -> bool {
        is_decimal_number(self.x@) && is_decimal_number(self.y@)
    }
}

/// Failure to parse a point description.
#[derive(Debug)]
pub enum MalformedPointError {
    /// The text does not consist of exactly two comma-separated tokens;
    /// the expected format is "x,y".
    NotAPair { input: String },
    /// A coordinate token is not a decimal number.
    NotANumber { token: String },
}

impl MalformedPointError {
    /// A description of the failure that names the offending text; the
    /// expected point format is "x,y".
    pub fn message(&self) -> (r: String)
        ensures
            self matches MalformedPointError::NotAPair { input } ==> r@
                == "expected format for points is \"x,y\", got: "@ + input@,
            self matches MalformedPointError::NotANumber { token } ==> r@
                == "point coordinate is not a decimal number: "@ + token@,
    {
        match self {
            MalformedPointError::NotAPair { input } => {
                let mut s = String::from_str("expected format for points is \"x,y\", got: ");
                s.append(input.as_str());
                s
            },
            MalformedPointError::NotANumber { token } => {
                let mut s = String::from_str("point coordinate is not a decimal number: ");
                s.append(token.as_str());
                s
            },
        }
    }
}

pub open spec fn is_digit(c: char) -> bool {
    '0' as u32 <= c as u32 && c as u32 <= '9' as u32
}

pub open spec fn is_sign(c: char) -> bool {
    c == '+' || c == '-'
}

/// The length of the longest run of decimal digits at the front of `s`.
pub open spec fn digits_prefix_len(s: Seq<char>) -> nat
    decreases s.len(),
{
    if s.len() > 0 && is_digit(s[0]) {
        1 + digits_prefix_len(s.drop_first())
    } else {
        0
    }
}

/// An exponent part: 'e' or 'E', an optional sign, then at least one digit
/// and nothing else.
pub open spec fn is_exponent(t: Seq<char>) -> bool {
    t.len() >= 1 && (t[0] == 'e' || t[0] == 'E') && {
        let u = t.drop_first();
        let v = if u.len() > 0 && is_sign(u[0]) {
            u.drop_first()
        } else {
            u
        };
        v.len() > 0 && digits_prefix_len(v) == v.len()
    }
}

pub open spec fn is_exponent_or_empty(t: Seq<char>) -> bool {
    t.len() == 0 || is_exponent(t)
}

/// The body of a decimal number, after any leading sign: digits with an
/// optional fraction, or a fraction alone, followed by an optional exponent.
pub open spec fn is_decimal_body(b: Seq<char>) -> bool {
    let d1 = digits_prefix_len(b) as int;
    if d1 == 0 {
        b.len() > 0 && b[0] == '.' && {
            let d2 = digits_prefix_len(b.skip(1)) as int;
            d2 > 0 && is_exponent_or_empty(b.skip(1 + d2))
        }
    } else {
        let rest = b.skip(d1);
        if rest.len() == 0 {
            true
        } else if rest[0] == '.' {
            let d2 = digits_prefix_len(rest.skip(1)) as int;
            is_exponent_or_empty(rest.skip(1 + d2))
        } else {
            is_exponent(rest)
        }
    }
}

/// A decimal floating-point number: an optional sign, then integer digits
/// with an optional '.' fraction, or '.' followed by fraction digits, then
/// an optional exponent.
pub open spec fn is_decimal_number(s: Seq<char>) -> bool {
    s.len() > 0 && {
        let b = if is_sign(s[0]) {
            s.drop_first()
        } else {
            s
        };
        is_decimal_body(b)
    }
}

/// The index of the first comma of `s`, or `s.len()` when there is none.
pub open spec fn first_comma(s: Seq<char>) -> int
    decreases s.len(),
{
    if s.len() == 0 {
        0
    } else if s[0] == ',' {
        0
    } else {
        1 + first_comma(s.drop_first())
    }
}

/// The two tokens of a point description: `None` unless `s` holds exactly
/// one comma, otherwise the text before and after it.
pub open spec fn point_tokens(s: Seq<char>) -> Option<(Seq<char>, Seq<char>)> {
    let i = first_comma(s);
    if i == s.len() {
        None
    } else {
        let rest = s.skip(i + 1);
        if first_comma(rest) == rest.len() {
            Some((s.take(i), rest))
        } else {
            None
        }
    }
}

/// A well-formed point description: exactly two comma-separated tokens, each
/// a decimal number.
pub open spec fn wellformed_point(s: Seq<char>) -> bool {
    point_tokens(s) matches Some(t) && is_decimal_number(t.0) && is_decimal_number(t.1)
}

/// The error a malformed point description is reported with: the whole text
/// when it is not a comma-separated pair, otherwise its first token that is
/// not a decimal number.
pub open spec fn describes_point_error(e: MalformedPointError, s: Seq<char>) -> bool {
    match point_tokens(s) {
        None => e matches MalformedPointError::NotAPair { input } && input@ == s,
        Some(t) => {
            if !is_decimal_number(t.0) {
                e matches MalformedPointError::NotANumber { token } && token@ == t.0
            } else {
                e matches MalformedPointError::NotANumber { token } && token@ == t.1
            }
        },
    }
}

/// `digits_prefix_len` is pinned by its bounding non-digit: if the first `n`
/// characters are digits and the next one (if any) is not, the digit prefix
/// has length exactly `n`.
proof fn lemma_digits_prefix_len_at(t: Seq<char>, n: int)
    requires
        0 <= n <= t.len(),
        forall|i: int| 0 <= i < n ==> is_digit(t[i]),
        n == t.len() || !is_digit(t[n]),
    ensures
        digits_prefix_len(t) == n,
    decreases t.len(),
{
    if t.len() == 0 {
    } else if !is_digit(t[0]) {
        assert(n == 0);
    } else {
        assert(n >= 1);
        lemma_digits_prefix_len_at(t.drop_first(), n - 1);
    }
}

/// `first_comma` is pinned the same way by its first comma.
proof fn lemma_first_comma_at(t: Seq<char>, n: int)
    requires
        0 <= n <= t.len(),
        forall|i: int| 0 <= i < n ==> t[i] != ',',
        n == t.len() || t[n] == ',',
    ensures
        first_comma(t) == n,
    decreases t.len(),
{
    if t.len() == 0 {
    } else if t[0] == ',' {
        assert(n == 0);
    } else {
        assert(n >= 1);
        lemma_first_comma_at(t.drop_first(), n - 1);
    }
}

/// The end of the run of digits of `s` that starts at `from`.
fn digit_run_end(s: &str, from: usize, n: usize) -> (end: usize)
    requires
        n == s@.len(),
        from <= n,
    ensures
        from <= end <= n,
        forall|i: int| from <= i < end ==> is_digit(s@[i]),
        end == n || !is_digit(s@[end as int]),
{
    let mut i: usize = from;
    while i < n
        invariant
            from <= i <= n,
            n == s@.len(),
            forall|k: int| from <= k < i ==> is_digit(s@[k]),
        decreases n - i,
    {
        let c = s.get_char(i);
        let u: u32 = c as u32;
        if !(48 <= u && u <= 57) {
            return i;
        }
        i = i + 1;
    }
    i
}

/// The index of the first comma of `s` at or after `from`, or `n` when
/// there is none.
fn comma_scan(s: &str, from: usize, n: usize) -> (end: usize)
    requires
        n == s@.len(),
        from <= n,
    ensures
        from <= end <= n,
        forall|i: int| from <= i < end ==> s@[i] != ',',
        end == n || s@[end as int] == ',',
    {
    let mut i: usize = from;
    while i < n
        invariant
            from <= i <= n,
            n == s@.len(),
            forall|k: int| from <= k < i ==> s@[k] != ',',
        decreases n - i,
    {
        if s.get_char(i) == ',' {
            return i;
        }
        i = i + 1;
    }
    i
}

/// Whether the characters of `s` from `from` on are an exponent part.
fn exponent_ok(s: &str, from: usize, n: usize) -> (b: bool)
    requires
        n == s@.len(),
        from <= n,
    ensures
        b == is_exponent(s@.skip(from as int)),
{
    let ghost t = s@.skip(from as int);
    if from >= n {
        return false;
    }
    let c = s.get_char(from);
    if !(c == 'e' || c == 'E') {
        return false;
    }
    let mut k: usize = from + 1;
    if k < n {
        let cs = s.get_char(k);
        if cs == '+' || cs == '-' {
            k = k + 1;
        }
    }
    let ghost v = s@.skip(k as int);
    proof {
        assert(t.drop_first() =~= s@.skip(from as int + 1));
        if k == from + 2 {
            assert(t.drop_first().drop_first() =~= v);
        } else {
            assert(t.drop_first() =~= v);
        }
    }
    if k >= n {
        return false;
    }
    let end: usize = digit_run_end(s, k, n);
    proof {
        if end == n {
            lemma_digits_prefix_len_at(v, n - k);
        } else {
            lemma_digits_prefix_len_at(v, end - k);
        }
    }
    end == n
}

/// Whether `tok` is a decimal floating-point number.
pub fn check_decimal_number(tok: &str) -> (b: bool)
    ensures
        b == is_decimal_number(tok@),
{
    let n: usize = tok.unicode_len();
    if n == 0 {
        return false;
    }
    let c0 = tok.get_char(0);
    let sgn: usize = if c0 == '+' || c0 == '-' {
        1
    } else {
        0
    };
    let ghost body = if is_sign(tok@[0]) {
        tok@.drop_first()
    } else {
        tok@
    };
    proof {
        assert(body =~= tok@.skip(sgn as int));
    }
    let d1_end: usize = digit_run_end(tok, sgn, n);
    proof {
        lemma_digits_prefix_len_at(body, d1_end - sgn);
    }
    if d1_end == sgn {
        // No integer digits: the body must be '.', fraction digits, then an
        // optional exponent.
        if sgn >= n {
            return false;
        }
        if tok.get_char(sgn) != '.' {
            return false;
        }
        let d2_end: usize = digit_run_end(tok, sgn + 1, n);
        proof {
            assert(body.skip(1) =~= tok@.skip(sgn + 1));
            lemma_digits_prefix_len_at(body.skip(1), d2_end - (sgn + 1));
            assert(body.skip(1 + (d2_end - (sgn + 1))) =~= tok@.skip(d2_end as int));
        }
        if d2_end == sgn + 1 {
            return false;
        }
        if d2_end == n {
            return true;
        }
        exponent_ok(tok, d2_end, n)
    } else {
        let ghost rest = body.skip(d1_end - sgn);
        proof {
            assert(rest =~= tok@.skip(d1_end as int));
        }
        if d1_end == n {
            return true;
        }
        if tok.get_char(d1_end) == '.' {
            let d2_end: usize = digit_run_end(tok, d1_end + 1, n);
            proof {
                assert(rest.skip(1) =~= tok@.skip(d1_end + 1));
                lemma_digits_prefix_len_at(rest.skip(1), d2_end - (d1_end + 1));
                assert(rest.skip(1 + (d2_end - (d1_end + 1))) =~= tok@.skip(d2_end as int));
            }
            if d2_end == n {
                return true;
            }
            exponent_ok(tok, d2_end, n)
        } else {
            exponent_ok(tok, d1_end, n)
        }
    }
}

/// Parse one "x,y" point description with the given polarity.
pub fn parse_point(text: &String, positive: bool) -> (r: Result<PromptPoint, MalformedPointError>)
    ensures
        r is Ok <==> wellformed_point(text@),
        r matches Ok(p) ==> {
            &&& point_tokens(text@) matches Some(t) && p.x@ == t.0 && p.y@ == t.1
            &&& p.is_positive == positive
            &&& p.wf()
        },
        r matches Err(e) ==> describes_point_error(e, text@),
{
    let s = text.as_str();
    let n: usize = s.unicode_len();
    let i: usize = comma_scan(s, 0, n);
    proof {
        lemma_first_comma_at(s@, i as int);
    }
    if i == n {
        return Err(MalformedPointError::NotAPair { input: text.clone() });
    }
    let after: usize = comma_scan(s, i + 1, n);
    proof {
        assert(forall|k: int| 0 <= k < after - (i + 1) ==> #[trigger] s@.skip(i + 1)[k] != ',');
        if after == n {
            lemma_first_comma_at(s@.skip(i + 1), n - (i + 1));
        } else {
            assert(s@.skip(i + 1)[after - (i + 1)] == ',');
            lemma_first_comma_at(s@.skip(i + 1), after - (i + 1));
        }
    }
    if after < n {
        return Err(MalformedPointError::NotAPair { input: text.clone() });
    }
    let x_tok = s.substring_char(0, i);
    let y_tok = s.substring_char(i + 1, n);
    proof {
        assert(x_tok@ =~= s@.take(i as int));
        assert(y_tok@ =~= s@.skip(i + 1));
    }
    if !check_decimal_number(x_tok) {
        return Err(MalformedPointError::NotANumber { token: String::from_str(x_tok) });
    }
    if !check_decimal_number(y_tok) {
        return Err(MalformedPointError::NotANumber { token: String::from_str(y_tok) });
    }
    Ok(PromptPoint {
        x: String::from_str(x_tok),
        y: String::from_str(y_tok),
        is_positive: positive,
    })
}

/// The first token of a well-formed point description.
pub open spec fn x_token(s: Seq<char>) -> Seq<char> {
    (point_tokens(s)->0).0
}

/// The second token of a well-formed point description.
pub open spec fn y_token(s: Seq<char>) -> Seq<char> {
    (point_tokens(s)->0).1
}

/// Parse the positive then the negative point descriptions into one list of
/// prompt points, positives first, each group in input order. The first
/// malformed description is reported and no partial list is returned.
pub fn parse(positive: &Vec<String>, negative: &Vec<String>) -> (r: Result<
    Vec<PromptPoint>,
    MalformedPointError,
>)
    ensures
        ({
            let all = positive.deep_view() + negative.deep_view();
            &&& (r is Ok <==> (forall|i: int| 0 <= i < all.len() ==> wellformed_point(all[i])))
            &&& (r matches Ok(pts) ==> {
                &&& pts.len() == all.len()
                &&& (forall|i: int| 0 <= i < all.len() ==> {
                    &&& (#[trigger] pts[i]).x@ == x_token(all[i])
                    &&& pts[i].y@ == y_token(all[i])
                    &&& pts[i].wf()
                    &&& pts[i].is_positive == (i < positive.len())
                })
            })
            &&& (r matches Err(e) ==> exists|k: int| {
                &&& 0 <= k < all.len()
                &&& !wellformed_point(#[trigger] all[k])
                &&& (forall|j: int| 0 <= j < k ==> wellformed_point(all[j]))
                &&& describes_point_error(e, all[k])
            })
        }),
{
    let ghost all = positive.deep_view() + negative.deep_view();
    let mut pts: Vec<PromptPoint> = Vec::new();
    let mut i: usize = 0;
    while i < positive.len()
        invariant
            all == positive.deep_view() + negative.deep_view(),
            i <= positive.len(),
            pts.len() == i,
            forall|j: int| 0 <= j < i ==> wellformed_point(all[j]),
            forall|j: int| 0 <= j < i ==> {
                &&& (#[trigger] pts[j]).x@ == x_token(all[j])
                &&& pts[j].y@ == y_token(all[j])
                &&& pts[j].wf()
                &&& pts[j].is_positive == true
            },
        decreases positive.len() - i,
    {
        match parse_point(&positive[i], true) {
            Ok(p) => {
                pts.push(p);
            },
            Err(e) => {
                proof {
                    assert(all[i as int] == positive.deep_view()[i as int]);
                }
                return Err(e);
            },
        }
        i = i + 1;
    }
    let mut j: usize = 0;
    while j < negative.len()
        invariant
            all == positive.deep_view() + negative.deep_view(),
            j <= negative.len(),
            pts.len() == positive.len() + j,
            forall|k: int| 0 <= k < positive.len() + j ==> wellformed_point(all[k]),
            forall|k: int| 0 <= k < positive.len() + j ==> {
                &&& (#[trigger] pts[k]).x@ == x_token(all[k])
                &&& pts[k].y@ == y_token(all[k])
                &&& pts[k].wf()
                &&& pts[k].is_positive == (k < positive.len())
            },
        decreases negative.len() - j,
    {
        match parse_point(&negative[j], false) {
            Ok(p) => {
                pts.push(p);
            },
            Err(e) => {
                proof {
                    assert(all[positive.deep_view().len() + j] == negative.deep_view()[j as int]);
                }
                return Err(e);
            },
        }
        j = j + 1;
    }
    Ok(pts)
}

} // verus!
