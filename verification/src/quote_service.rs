//! Quote acquisition: code normalization, response parsing, deterministic
//! synthetic quotes, and the fallback merge.
//!
//! The live fetch itself is input/output and lives outside the library; the
//! caller runs one fetch per planned code, parses each response with
//! `parse_quote_response`, and hands the collected live quotes to
//! `assemble_quotes`, which backfills synthetic quotes for every code the
//! live path could not resolve without ever overwriting a live quote.

use vstd::prelude::*;

use crate::error::AppError;
use crate::position::{MAX_PRICE, PRICE_SCALE};
use crate::quote::{QuoteMap, QuoteV, RealQuote};
use crate::text::{
    check_digit, chars_of, digit_value, find_char, first_at_or_after, is_digit, string_from_chars,
};

verus! {

/// Longest accepted instrument code, in characters.
pub const MAX_CODE_LEN: usize = 1000;

/// The ASCII digits of a sequence, in order.
pub open spec fn digits_of(s: Seq<char>) -> Seq<char>
    decreases s.len(),
{
    if s.len() == 0 {
        Seq::empty()
    } else {
        let rest = digits_of(s.drop_last());
        if is_digit(s.last()) {
            rest.push(s.last())
        } else {
            rest
        }
    }
}

/// Whether the code already carries an exchange prefix.
pub open spec fn has_exchange_prefix(s: Seq<char>) -> bool {
    s.len() >= 2 && s[0] == 's' && (s[1] == 'h' || s[1] == 'z')
}

/// Normalized form of an instrument code: a plain 6-digit code gets its
/// exchange prefix (`sh` for a leading 6, `sz` for a leading 0 or 3); an
/// already-prefixed or non-conforming code passes through unchanged.
pub open spec fn spec_format_stock_code(s: Seq<char>) -> Seq<char> {
    if has_exchange_prefix(s) {
        s
    } else {
        let d = digits_of(s);
        if d.len() != 6 {
            s
        } else if d[0] == '6' {
            "sh"@ + d
        } else if d[0] == '0' || d[0] == '3' {
            "sz"@ + d
        } else {
            s
        }
    }
}

/// Decimal value of a digit string, most significant digit first.
pub open spec fn digits_value(s: Seq<char>) -> int
    decreases s.len(),
{
    if s.len() == 0 {
        0
    } else {
        digits_value(s.drop_last()) * 10 + digit_value(s.last())
    }
}

/// Whether every character is an ASCII digit.
pub open spec fn all_digits(s: Seq<char>) -> bool {
    forall|i: int| 0 <= i < s.len() ==> is_digit(#[trigger] s[i])
}

/// Value of a fraction part of at most two digits, in hundredths.
pub open spec fn frac_scaled(fp: Seq<char>) -> int
    recommends
        fp.len() <= 2,
{
    if fp.len() == 0 {
        0
    } else if fp.len() == 1 {
        digit_value(fp[0]) * 10
    } else {
        digit_value(fp[0]) * 10 + digit_value(fp[1])
    }
}

/// Fixed-point reading of a decimal price string: digits, optionally followed
/// by a point and at most two fraction digits; the value must not exceed
/// `MAX_PRICE`.  Anything else does not parse.
pub open spec fn parse_price_spec(s: Seq<char>) -> Option<int> {
    let dotpos = first_at_or_after(s, '.', 0);
    let ip = match dotpos {
        Some(d) => s.take(d),
        None => s,
    };
    let fp = match dotpos {
        Some(d) => s.skip(d + 1),
        None => Seq::empty(),
    };
    if ip.len() > 0 && all_digits(ip) && fp.len() <= 2 && all_digits(fp) {
        let v = digits_value(ip) * (PRICE_SCALE as int) + frac_scaled(fp);
        if v <= MAX_PRICE {
            Some(v)
        } else {
            None
        }
    } else {
        None
    }
}

/// The payload between the first pair of quotation marks, if both exist.
pub open spec fn quoted_payload(text: Seq<char>) -> Option<Seq<char>> {
    match first_at_or_after(text, '"', 0) {
        None => None,
        Some(i) => match first_at_or_after(text, '"', i + 1) {
            None => None,
            Some(j) => Some(text.subrange(i + 1, j)),
        },
    }
}

/// The fields of a tilde-delimited record: what splitting on `~` yields,
/// including empty fields and the trailing field.
pub open spec fn split_tilde(s: Seq<char>) -> Seq<Seq<char>>
    decreases s.len(),
{
    if s.len() == 0 {
        seq![Seq::empty()]
    } else if s.last() == '~' {
        split_tilde(s.drop_last()).push(Seq::empty())
    } else {
        let r = split_tilde(s.drop_last());
        r.update(r.len() - 1, r.last().push(s.last()))
    }
}

/// Splitting yields at least one field.
pub proof fn lemma_split_tilde_len(s: Seq<char>)
    ensures
        split_tilde(s).len() >= 1,
    decreases s.len(),
{
    if s.len() > 0 {
        lemma_split_tilde_len(s.drop_last());
    }
}

/// Name of a synthetic quote: a fixed label followed by the code.
pub open spec fn synthetic_name(code: Seq<char>) -> Seq<char> {
    "模拟股票"@ + code
}

/// Price of a synthetic quote: a small constant plus half a unit per
/// character of the code, in minor units.
pub open spec fn synthetic_price(code: Seq<char>) -> int {
    10 * (PRICE_SCALE as int) + code.len() * ((PRICE_SCALE as int) / 2)
}

/// The deterministic placeholder quote for a code.
pub open spec fn synthetic_quote(code: Seq<char>) -> QuoteV {
    QuoteV { code: code, name: synthetic_name(code), price: synthetic_price(code) }
}

/// The map of synthetic quotes for a list of codes.
pub open spec fn mock_map(codes: Seq<Seq<char>>) -> Map<Seq<char>, QuoteV>
    decreases codes.len(),
{
    if codes.len() == 0 {
        Map::empty()
    } else {
        mock_map(codes.drop_last()).insert(codes.last(), synthetic_quote(codes.last()))
    }
}

/// The live map backfilled with a synthetic quote for every code it lacks.
pub open spec fn fallback_map(m: Map<Seq<char>, QuoteV>, codes: Seq<Seq<char>>) -> Map<
    Seq<char>,
    QuoteV,
>
    decreases codes.len(),
{
    if codes.len() == 0 {
        m
    } else {
        let r = fallback_map(m, codes.drop_last());
        if r.contains_key(codes.last()) {
            r
        } else {
            r.insert(codes.last(), synthetic_quote(codes.last()))
        }
    }
}

/// What `assemble_quotes` returns: all synthetic in forced-synthetic mode,
/// otherwise the live map with synthetic backfill.
pub open spec fn assembled_map(
    live: Map<Seq<char>, QuoteV>,
    codes: Seq<Seq<char>>,
    force_synthetic: bool,
) -> Map<Seq<char>, QuoteV> {
    if force_synthetic {
        mock_map(codes)
    } else {
        fallback_map(live, codes)
    }
}

/// Quote acquisition service.
pub struct QuoteService;

impl QuoteService {
    /// Normalize an instrument code for the quote provider: prefix a plain
    /// 6-digit code by exchange, keep everything else unchanged.
    pub fn format_stock_code(code: &str) -> (r: String)
        ensures
            r@ == spec_format_stock_code(code@),
    {
        let cs = chars_of(code);
        if cs.len() >= 2 && cs[0] == 's' && (cs[1] == 'h' || cs[1] == 'z') {
            return code.to_owned();
        }
        let mut clean: Vec<char> = Vec::new();
        let mut i: usize = 0;
        while i < cs.len()
            invariant
                i <= cs@.len(),
                clean@ == digits_of(cs@.take(i as int)),
            decreases cs@.len() - i,
        {
            proof {
                assert(cs@.take(i + 1 as int).drop_last() =~= cs@.take(i as int));
            }
            if check_digit(cs[i]) {
                clean.push(cs[i]);
            }
            i = i + 1;
        }
        proof {
            assert(cs@.take(cs@.len() as int) =~= cs@);
        }
        if clean.len() != 6 {
            return code.to_owned();
        }
        if clean[0] == '6' {
            let mut r = "sh".to_owned();
            r.append(string_from_chars(&clean).as_str());
            r
        } else if clean[0] == '0' || clean[0] == '3' {
            let mut r = "sz".to_owned();
            r.append(string_from_chars(&clean).as_str());
            r
        } else {
            code.to_owned()
        }
    }

    /// Fixed-point reading of a price field; `None` exactly when
    /// `parse_price_spec` rejects it.
    fn parse_price(v: &Vec<char>) -> (r: Option<i64>)
        ensures
            match r {
                Some(p) => parse_price_spec(v@) == Some(p as int) && 0 <= p <= MAX_PRICE,
                None => parse_price_spec(v@) is None,
            },
    {
        let dot = find_char(v, '.', 0);
        let int_end: usize = match dot {
            Some(d) => d,
            None => v.len(),
        };
        let ghost ip = match first_at_or_after(v@, '.', 0) {
            Some(d) => v@.take(d),
            None => v@,
        };
        let ghost fp = match first_at_or_after(v@, '.', 0) {
            Some(d) => v@.skip(d + 1),
            None => Seq::<char>::empty(),
        };
        proof {
            assert(ip =~= v@.take(int_end as int));
        }
        if int_end == 0 {
            return None;
        }
        let mut acc: i64 = 0;
        let mut i: usize = 0;
        while i < int_end
            invariant
                0 <= i <= int_end <= v@.len(),
                ip == v@.take(int_end as int),
                ip =~= v@.take(int_end as int),
                fp == (match first_at_or_after(v@, '.', 0) {
                    Some(d) => v@.skip(d + 1),
                    None => Seq::<char>::empty(),
                }),
                first_at_or_after(v@, '.', 0) == (match dot {
                    Some(d) => Some(d as int),
                    None => None,
                }),
                dot is None ==> int_end == v@.len(),
                dot matches Some(d) ==> int_end == d,
                acc == digits_value(v@.take(i as int)),
                0 <= acc <= 10 * MAX_PRICE + 9,
                forall|j: int| 0 <= j < i ==> is_digit(#[trigger] v@[j]),
            decreases int_end - i,
        {
            let c = v[i];
            proof {
                assert(v@.take(i + 1 as int).drop_last() =~= v@.take(i as int));
                assert(v@.take(i + 1 as int).last() == v@[i as int]);
            }
            if !check_digit(c) {
                proof {
                    assert(ip[i as int] == v@[i as int]);
                    assert(!all_digits(ip));
                }
                return None;
            }
            if acc > MAX_PRICE {
                proof {
                    assert(v@.take(v@.len() as int) =~= v@);
                    if all_digits(ip) && fp.len() <= 2 && all_digits(fp) {
                        lemma_digits_value_nonneg(ip);
                        assert(ip.take(i as int) =~= v@.take(i as int));
                        lemma_digits_prefix_le(ip, i as int);
                        assert(digits_value(ip) >= acc);
                        lemma_frac_scaled_nonneg(fp);
                        assert(digits_value(ip) * (PRICE_SCALE as int) + frac_scaled(fp)
                            > MAX_PRICE);
                    }
                    assert(parse_price_spec(v@) is None);
                }
                return None;
            }
            let d: i64 = ((c as u32) - 48) as i64;
            proof {
                assert(d == digit_value(v@[i as int]));
            }
            acc = acc * 10 + d;
            i = i + 1;
        }
        proof {
            assert(all_digits(ip)) by {
                assert(forall|j: int| 0 <= j < ip.len() ==> (#[trigger] ip[j]) == v@[j]);
            }
            assert(ip =~= v@.take(int_end as int));
            assert(v@.take(v@.len() as int) =~= v@);
            assert(acc == digits_value(ip));
        }
        // Fraction part, at most two digits.
        let mut frac: i64 = 0;
        match dot {
            None => {
                proof {
                    assert(fp.len() == 0);
                }
            },
            Some(d) => {
                let flen = v.len() - (d + 1);
                proof {
                    assert(fp =~= v@.subrange(d + 1 as int, v@.len() as int));
                    assert(fp.len() == flen);
                }
                if flen > 2 {
                    return None;
                }
                if flen >= 1 {
                    let c0 = v[d + 1];
                    proof {
                        assert(fp[0] == v@[d + 1 as int]);
                    }
                    if !check_digit(c0) {
                        proof {
                            assert(!all_digits(fp));
                        }
                        return None;
                    }
                    frac = (((c0 as u32) - 48) as i64) * 10;
                }
                if flen == 2 {
                    let c1 = v[d + 2];
                    proof {
                        assert(fp[1] == v@[d + 2 as int]);
                    }
                    if !check_digit(c1) {
                        proof {
                            assert(!all_digits(fp));
                        }
                        return None;
                    }
                    frac = frac + (((c1 as u32) - 48) as i64);
                }
                proof {
                    assert(all_digits(fp)) by {
                        assert(forall|j: int| 0 <= j < fp.len() ==> fp[j] == v@[d + 1 + j]);
                    }
                    assert(frac == frac_scaled(fp));
                }
            },
        }
        let total = acc * PRICE_SCALE + frac;
        if total > MAX_PRICE {
            return None;
        }
        Some(total)
    }

    /// Parse one provider response: take the payload between the first pair
    /// of quotation marks, split it on `~`, and read the display name at
    /// field 1 and the price at field 3.  Each failure names the exact
    /// condition that caused it.
    pub fn parse_quote_response(text: &str, original_code: &str) -> (r: Result<
        RealQuote,
        AppError,
    >)
        ensures
            quoted_payload(text@) is None ==> (r matches Err(e) && e matches AppError::Business(m)
                && m@ == "无效的响应格式"@),
            quoted_payload(text@) matches Some(data) ==> {
                let fields = split_tilde(data);
                &&& fields.len() < 4 ==> (r matches Err(e) && e matches AppError::Business(m) && m@
                    == "股票 "@ + original_code@ + " 数据字段不足，响应: "@ + data)
                &&& fields.len() >= 4 && (fields[3].len() == 0 || fields[3] == "--"@) ==> (r
                    matches Err(e) && e matches AppError::Business(m) && m@ == "股票 "@
                    + original_code@ + " 暂停或无价格数据"@)
                &&& fields.len() >= 4 && fields[3].len() != 0 && fields[3] != "--"@
                    && parse_price_spec(fields[3]) is None ==> (r matches Err(e) && e matches
                    AppError::Business(m) && m@ == "解析价格失败 '"@ + fields[3] + "'"@)
                &&& (fields.len() >= 4 && fields[3].len() != 0 && fields[3] != "--"@ && (
                parse_price_spec(fields[3]) matches Some(p))) ==> (r matches Ok(q) && q.code@
                    == original_code@ && q.name@ == fields[1] && Some(q.real_price as int)
                    == parse_price_spec(fields[3]) && 0 <= q.real_price <= MAX_PRICE)
            },
    {
        let cs = chars_of(text);
        let start = match find_char(&cs, '"', 0) {
            Some(i) => i,
            None => {
                return Err(AppError::Business("无效的响应格式".to_owned()));
            },
        };
        let end = match find_char(&cs, '"', start + 1) {
            Some(j) => j,
            None => {
                return Err(AppError::Business("无效的响应格式".to_owned()));
            },
        };
        let mut data: Vec<char> = Vec::new();
        let mut k = start + 1;
        while k < end
            invariant
                start + 1 <= k <= end <= cs@.len(),
                data@ == cs@.subrange(start + 1 as int, k as int),
            decreases end - k,
        {
            data.push(cs[k]);
            proof {
                assert(data@ =~= cs@.subrange(start + 1 as int, k + 1 as int));
            }
            k = k + 1;
        }
        proof {
            assert(quoted_payload(text@) == Some(data@));
        }
        let fields = split_tilde_exec(&data);
        proof {
            lemma_split_tilde_len(data@);
        }
        if fields.len() < 4 {
            let mut m = "股票 ".to_owned();
            m.append(original_code);
            m.append(" 数据字段不足，响应: ");
            m.append(string_from_chars(&data).as_str());
            return Err(AppError::Business(m));
        }
        let price_field = &fields[3];
        proof {
            assert(fields.deep_view()[3] =~= fields@[3]@);
        }
        let no_price = price_field.len() == 0 || (price_field.len() == 2 && price_field[0] == '-'
            && price_field[1] == '-');
        proof {
            reveal_strlit("--");
            if price_field@.len() == 2 && price_field@[0] == '-' && price_field@[1] == '-' {
                assert(price_field@ =~= "--"@);
            }
        }
        if no_price {
            let mut m = "股票 ".to_owned();
            m.append(original_code);
            m.append(" 暂停或无价格数据");
            return Err(AppError::Business(m));
        }
        match Self::parse_price(price_field) {
            Some(p) => {
                let name = string_from_chars(&fields[1]);
                proof {
                    assert(fields.deep_view()[1] =~= fields@[1]@);
                }
                Ok(RealQuote::new(original_code.to_owned(), name, p))
            },
            None => {
                let mut m = "解析价格失败 '".to_owned();
                m.append(string_from_chars(price_field).as_str());
                m.append("'");
                Err(AppError::Business(m))
            },
        }
    }

    /// Deterministic synthetic quotes for every given code.
    pub fn mock_quotes(codes: &Vec<String>) -> (r: QuoteMap)
        requires
            forall|i: int| 0 <= i < codes@.len() ==> (#[trigger] codes@[i])@.len() <= MAX_CODE_LEN,
        ensures
            r.wf(),
            r@ == mock_map(codes.deep_view()),
    {
        let mut m = QuoteMap::new();
        let mut i: usize = 0;
        while i < codes.len()
            invariant
                i <= codes@.len(),
                forall|j: int| 0 <= j < codes@.len() ==> (#[trigger] codes@[j])@.len()
                    <= MAX_CODE_LEN,
                m.wf(),
                m@ == mock_map(codes.deep_view().take(i as int)),
                forall|c: Seq<char>| #[trigger] m@.contains_key(c) ==> m@[c] == synthetic_quote(c),
            decreases codes@.len() - i,
        {
            proof {
                assert(codes.deep_view().take(i + 1 as int).drop_last() =~= codes.deep_view().take(
                    i as int,
                ));
                assert(codes.deep_view().take(i + 1 as int).last() == codes@[i as int]@);
            }
            let code = &codes[i];
            let n = code.as_str().unicode_len();
            let price: i64 = 10 * PRICE_SCALE + (n as i64) * (PRICE_SCALE / 2);
            let mut name = "模拟股票".to_owned();
            name.append(code.as_str());
            let q = RealQuote::new(code.clone(), name, price);
            proof {
                assert(q.deep_view() == synthetic_quote(code@));
            }
            if m.contains(code.as_str()) {
                proof {
                    assert(m@ =~= m@.insert(code@, synthetic_quote(code@)));
                }
            } else {
                m.insert(q);
            }
            i = i + 1;
        }
        proof {
            assert(codes.deep_view().take(codes@.len() as int) =~= codes.deep_view());
        }
        m
    }

    /// Backfill: add a synthetic quote for every code the live map lacks,
    /// never touching a code the live path resolved.
    pub fn merge_with_fallback(codes: &Vec<String>, live: QuoteMap) -> (r: QuoteMap)
        requires
            live.wf(),
            forall|i: int| 0 <= i < codes@.len() ==> (#[trigger] codes@[i])@.len() <= MAX_CODE_LEN,
        ensures
            r.wf(),
            r@ == fallback_map(live@, codes.deep_view()),
    {
        let mut m = live;
        let mut i: usize = 0;
        while i < codes.len()
            invariant
                i <= codes@.len(),
                forall|j: int| 0 <= j < codes@.len() ==> (#[trigger] codes@[j])@.len()
                    <= MAX_CODE_LEN,
                m.wf(),
                m@ == fallback_map(live@, codes.deep_view().take(i as int)),
            decreases codes@.len() - i,
        {
            proof {
                assert(codes.deep_view().take(i + 1 as int).drop_last() =~= codes.deep_view().take(
                    i as int,
                ));
                assert(codes.deep_view().take(i + 1 as int).last() == codes@[i as int]@);
            }
            let code = &codes[i];
            if !m.contains(code.as_str()) {
                let n = code.as_str().unicode_len();
                let price: i64 = 10 * PRICE_SCALE + (n as i64) * (PRICE_SCALE / 2);
                let mut name = "模拟股票".to_owned();
                name.append(code.as_str());
                let q = RealQuote::new(code.clone(), name, price);
                proof {
                    assert(q.deep_view() == synthetic_quote(code@));
                }
                m.insert(q);
            }
            i = i + 1;
        }
        proof {
            assert(codes.deep_view().take(codes@.len() as int) =~= codes.deep_view());
        }
        m
    }

    /// The codes the live path must fetch: none at all in forced-synthetic
    /// mode, every requested code otherwise.
    pub fn live_fetch_plan(codes: &Vec<String>, force_synthetic: bool) -> (r: Vec<String>)
        ensures
            force_synthetic ==> r@.len() == 0,
            !force_synthetic ==> r.deep_view() == codes.deep_view(),
    {
        if force_synthetic {
            Vec::new()
        } else {
            let mut r: Vec<String> = Vec::new();
            let mut i: usize = 0;
            while i < codes.len()
                invariant
                    i <= codes@.len(),
                    r@ =~= codes@.take(i as int),
                decreases codes@.len() - i,
            {
                r.push(codes[i].clone());
                proof {
                    assert(r@ =~= codes@.take(i + 1 as int));
                }
                i = i + 1;
            }
            proof {
                assert(codes@.take(codes@.len() as int) =~= codes@);
                assert(r@ == codes@);
                assert(r.deep_view() =~~= codes.deep_view());
            }
            r
        }
    }

    /// Combine the live quotes with the deterministic fallback: all-synthetic
    /// when forced, otherwise live quotes first and synthetic backfill for
    /// every unresolved code.
    pub fn assemble_quotes(codes: &Vec<String>, force_synthetic: bool, live: QuoteMap) -> (r:
        QuoteMap)
        requires
            live.wf(),
            forall|i: int| 0 <= i < codes@.len() ==> (#[trigger] codes@[i])@.len() <= MAX_CODE_LEN,
        ensures
            r.wf(),
            r@ == assembled_map(live@, codes.deep_view(), force_synthetic),
    {
        if force_synthetic {
            Self::mock_quotes(codes)
        } else {
            Self::merge_with_fallback(codes, live)
        }
    }
}

/// Split a character vector on `~`.
fn split_tilde_exec(data: &Vec<char>) -> (r: Vec<Vec<char>>)
    ensures
        r.deep_view() == split_tilde(data@),
        r@.len() >= 1,
{
    let mut tokens: Vec<Vec<char>> = Vec::new();
    let mut cur: Vec<char> = Vec::new();
    let mut i: usize = 0;
    while i < data.len()
        invariant
            i <= data@.len(),
            tokens.deep_view().push(cur@) =~= split_tilde(data@.take(i as int)),
        decreases data@.len() - i,
    {
        proof {
            assert(data@.take(i + 1 as int).drop_last() =~= data@.take(i as int));
            assert(data@.take(i + 1 as int).last() == data@[i as int]);
        }
        if data[i] == '~' {
            let ghost prev_tokens = tokens.deep_view();
            let ghost prev_cur = cur@;
            tokens.push(cur);
            cur = Vec::new();
            proof {
                assert(tokens.deep_view() =~~= prev_tokens.push(prev_cur));
                assert(tokens.deep_view().push(cur@) =~~= split_tilde(data@.take(i + 1 as int)));
            }
        } else {
            let ghost prev = split_tilde(data@.take(i as int));
            cur.push(data[i]);
            proof {
                assert(prev.len() >= 1) by {
                    lemma_split_tilde_len(data@.take(i as int));
                }
                assert(tokens.deep_view().push(cur@) =~~= prev.update(
                    prev.len() - 1,
                    prev.last().push(data@[i as int]),
                ));
            }
        }
        i = i + 1;
    }
    proof {
        assert(data@.take(data@.len() as int) =~= data@);
        lemma_split_tilde_len(data@);
    }
    let ghost prev_tokens = tokens.deep_view();
    let ghost prev_cur = cur@;
    tokens.push(cur);
    proof {
        assert(tokens.deep_view() =~~= prev_tokens.push(prev_cur));
        assert(tokens.deep_view() =~~= split_tilde(data@));
    }
    tokens
}

/// Forced-synthetic mode produces a quote for every requested code — the
/// deterministic synthetic one — and quotes for nothing else.
pub proof fn lemma_mock_map_covers(codes: Seq<Seq<char>>)
    ensures
        forall|i: int|
            0 <= i < codes.len() ==> mock_map(codes).contains_key(#[trigger] codes[i]),
        forall|c: Seq<char>| #[trigger]
            mock_map(codes).contains_key(c) ==> mock_map(codes)[c] == synthetic_quote(c),
    decreases codes.len(),
{
    if codes.len() > 0 {
        lemma_mock_map_covers(codes.drop_last());
        assert(forall|i: int|
            0 <= i < codes.len() - 1 ==> (#[trigger] codes[i]) == codes.drop_last()[i]);
        assert forall|c: Seq<char>| #[trigger]
            mock_map(codes).contains_key(c) implies mock_map(codes)[c] == synthetic_quote(c) by {
            if c != codes.last() {
                assert(mock_map(codes.drop_last()).contains_key(c));
            }
        }
    }
}

/// The fallback merge never overwrites a code the live path resolved, covers
/// every requested code, and adds only synthetic quotes.
pub proof fn lemma_fallback_map_correct(m: Map<Seq<char>, QuoteV>, codes: Seq<Seq<char>>)
    ensures
        forall|c: Seq<char>| #[trigger]
            m.contains_key(c) ==> fallback_map(m, codes).contains_key(c) && fallback_map(m, codes)[c]
                == m[c],
        forall|i: int|
            0 <= i < codes.len() ==> fallback_map(m, codes).contains_key(#[trigger] codes[i]),
        forall|c: Seq<char>| #[trigger]
            fallback_map(m, codes).contains_key(c) ==> m.contains_key(c) || fallback_map(m, codes)[c]
                == synthetic_quote(c),
    decreases codes.len(),
{
    if codes.len() > 0 {
        lemma_fallback_map_correct(m, codes.drop_last());
        assert(forall|i: int|
            0 <= i < codes.len() - 1 ==> (#[trigger] codes[i]) == codes.drop_last()[i]);
        assert forall|c: Seq<char>| #[trigger]
            fallback_map(m, codes).contains_key(c) implies m.contains_key(c) || fallback_map(
            m,
            codes,
        )[c] == synthetic_quote(c) by {
            let prev = fallback_map(m, codes.drop_last());
            if prev.contains_key(c) {
                assert(prev.contains_key(c));
            }
        }
    }
}

/// A digit string has a non-negative value.
proof fn lemma_digits_value_nonneg(s: Seq<char>)
    requires
        all_digits(s),
    ensures
        digits_value(s) >= 0,
    decreases s.len(),
{
    if s.len() > 0 {
        assert(forall|j: int|
            0 <= j < s.drop_last().len() ==> (#[trigger] s.drop_last()[j]) == s[j]);
        lemma_digits_value_nonneg(s.drop_last());
    }
}

/// A prefix of a digit string is worth no more than the whole.
proof fn lemma_digits_prefix_le(s: Seq<char>, i: int)
    requires
        all_digits(s),
        0 <= i <= s.len(),
    ensures
        digits_value(s.take(i)) <= digits_value(s),
    decreases s.len(),
{
    if i == s.len() {
        assert(s.take(i) =~= s);
    } else {
        assert(forall|j: int|
            0 <= j < s.drop_last().len() ==> (#[trigger] s.drop_last()[j]) == s[j]);
        lemma_digits_value_nonneg(s.drop_last());
        lemma_digits_prefix_le(s.drop_last(), i);
        assert(s.drop_last().take(i) =~= s.take(i));
    }
}

/// A well-formed fraction part contributes a non-negative value.
proof fn lemma_frac_scaled_nonneg(fp: Seq<char>)
    requires
        fp.len() <= 2,
        all_digits(fp),
    ensures
        frac_scaled(fp) >= 0,
{
    if fp.len() >= 1 {
        assert(is_digit(fp[0]));
    }
    if fp.len() == 2 {
        assert(is_digit(fp[1]));
    }
}

} // verus!
