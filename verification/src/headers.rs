use vstd::prelude::*;

use crate::error::EngineError;

verus! {

/// True for Unicode control characters: the C0 range, delete, and the C1
/// range.
pub open spec fn is_control_char(c: char) -> bool {
    (c as u32) < 0x20 || (0x7f <= (c as u32) && (c as u32) <= 0x9f)
}

/// True for the separator characters that may not appear in a header name.
pub open spec fn is_separator_char(c: char) -> bool {
    ||| c == '('
    ||| c == ')'
    ||| c == ','
    ||| c == '/'
    ||| c == ':'
    ||| c == ';'
    ||| c == '<'
    ||| c == '='
    ||| c == '>'
    ||| c == '?'
    ||| c == '@'
    ||| c == '['
    ||| c == '\\'
    ||| c == ']'
    ||| c == '{'
    ||| c == '}'
}

/// A header name may contain neither control nor separator characters.
pub open spec fn valid_header_name(n: Seq<char>) -> bool {
    forall|i: int|
        0 <= i < n.len() ==> !is_control_char(#[trigger] n[i]) && !is_separator_char(n[i])
}

/// A header value may contain no control characters.
pub open spec fn valid_header_value(v: Seq<char>) -> bool {
    forall|i: int| 0 <= i < v.len() ==> !is_control_char(#[trigger] v[i])
}

/// Index of the first `:` in `s`, or `-1` when `s` contains none.
pub open spec fn first_colon(s: Seq<char>) -> int
    decreases s.len(),
{
    if s.len() == 0 {
        -1
    } else if s[0] == ':' {
        0
    } else {
        let r = first_colon(s.skip(1));
        if r < 0 {
            -1
        } else {
            r + 1
        }
    }
}

/// What `first_colon` finds: either no colon at all, or the least index
/// holding one.
pub proof fn lemma_first_colon(s: Seq<char>)
    ensures
        first_colon(s) < 0 ==> forall|j: int| 0 <= j < s.len() ==> s[j] != ':',
        first_colon(s) >= 0 ==> 0 <= first_colon(s) < s.len() && s[first_colon(s)] == ':' && (
        forall|j: int| 0 <= j < first_colon(s) ==> s[j] != ':'),
    decreases s.len(),
{
    if s.len() == 0 {
    } else if s[0] == ':' {
    } else {
        let t = s.skip(1);
        lemma_first_colon(t);
        let r = first_colon(t);
        assert(forall|j: int| 0 <= j < t.len() ==> t[j] == s[j + 1]);
        if r >= 0 {
            assert(t[r] == ':');
            assert(s[r + 1] == ':');
            assert forall|j: int| 0 <= j < r + 1 implies s[j] != ':' by {
                if j > 0 {
                    assert(t[j - 1] != ':');
                }
            }
        } else {
            assert forall|j: int| 0 <= j < s.len() implies s[j] != ':' by {
                if j > 0 {
                    assert(t[j - 1] != ':');
                }
            }
        }
    }
}

/// A serialized header pair: a valid name, a `:`, and a valid value.
pub open spec fn header_pair_ok(s: Seq<char>) -> bool {
    first_colon(s) >= 0 && valid_header_name(s.subrange(0, first_colon(s)))
        && valid_header_value(s.subrange(first_colon(s) + 1, s.len() as int))
}

/// The name part of a serialized header pair.
pub open spec fn decoded_name(s: Seq<char>) -> Seq<char> {
    s.subrange(0, first_colon(s))
}

/// The value part of a serialized header pair.
pub open spec fn decoded_value(s: Seq<char>) -> Seq<char> {
    s.subrange(first_colon(s) + 1, s.len() as int)
}

/// True when every character of `s` is neither a control nor a separator
/// character, checked executably.
pub fn header_name_ok(s: &str) -> (r: bool)
    ensures
        r == valid_header_name(s@),
{
    let n: usize = s.unicode_len();
    let mut i: usize = 0;
    while i < n
        invariant
            n == s@.len(),
            0 <= i <= n,
            forall|j: int|
                0 <= j < i ==> !is_control_char(#[trigger] s@[j]) && !is_separator_char(s@[j]),
        decreases n - i,
    {
        let c = s.get_char(i);
        let u = c as u32;
        if u < 0x20 || (0x7f <= u && u <= 0x9f) {
            return false;
        }
        if c == '(' || c == ')' || c == ',' || c == '/' || c == ':' || c == ';' || c == '<' || c
            == '=' || c == '>' || c == '?' || c == '@' || c == '[' || c == '\\' || c == ']' || c
            == '{' || c == '}' {
            return false;
        }
        i = i + 1;
    }
    true
}

/// True when no character of `s` is a control character, checked executably.
pub fn header_value_ok(s: &str) -> (r: bool)
    ensures
        r == valid_header_value(s@),
{
    let n: usize = s.unicode_len();
    let mut i: usize = 0;
    while i < n
        invariant
            n == s@.len(),
            0 <= i <= n,
            forall|j: int| 0 <= j < i ==> !is_control_char(#[trigger] s@[j]),
        decreases n - i,
    {
        let c = s.get_char(i);
        let u = c as u32;
        if u < 0x20 || (0x7f <= u && u <= 0x9f) {
            return false;
        }
        i = i + 1;
    }
    true
}

/// Serialize one header as `name:value`, rejecting names and values that
/// carry control or separator characters. An invalid header is an error,
/// never silently stripped or passed through.
pub fn encode_header(name: &str, value: &str) -> (r: Result<String, EngineError>)
    ensures
        match r {
            Ok(s) => valid_header_name(name@) && valid_header_value(value@) && s@ == name@ + seq![
                ':',
            ] + value@,
            Err(e) => (e == EngineError::InvalidHeaderName && !valid_header_name(name@)) || (e
                == EngineError::InvalidHeaderValue && valid_header_name(name@)
                && !valid_header_value(value@)),
        },
{
    if !header_name_ok(name) {
        return Err(EngineError::InvalidHeaderName);
    }
    if !header_value_ok(value) {
        return Err(EngineError::InvalidHeaderValue);
    }
    let sep = String::from_str(":");
    let s = String::from_str(name).concat(sep.as_str()).concat(value);
    proof {
        reveal_strlit(":");
        assert(sep@ =~= seq![':']);
        assert(s@ =~= name@ + seq![':'] + value@);
    }
    Ok(s)
}

/// Split a serialized header pair at its first `:`; a pair without a `:` is
/// malformed and rejected before reaching any transport.
pub fn decode_header(pair: &str) -> (r: Result<(String, String), EngineError>)
    ensures
        match r {
            Ok(kv) => first_colon(pair@) >= 0 && kv.0@ == decoded_name(pair@) && kv.1@
                == decoded_value(pair@),
            Err(e) => e == EngineError::MalformedHeader && first_colon(pair@) < 0,
        },
{
    proof {
        lemma_first_colon(pair@);
    }
    let n: usize = pair.unicode_len();
    let mut i: usize = 0;
    while i < n
        invariant
            n == pair@.len(),
            0 <= i <= n,
            forall|j: int| 0 <= j < i ==> pair@[j] != ':',
        decreases n - i,
    {
        if pair.get_char(i) == ':' {
            proof {
                lemma_first_colon(pair@);
                let fc = first_colon(pair@);
                assert(fc >= 0);
                if fc < i {
                    assert(pair@[fc] == ':');
                    assert(false);
                }
                if fc > i {
                    assert(pair@[i as int] != ':');
                    assert(false);
                }
            }
            let k = pair.substring_char(0, i).to_owned();
            let v = pair.substring_char(i + 1, n).to_owned();
            return Ok((k, v));
        }
        i = i + 1;
    }
    proof {
        lemma_first_colon(pair@);
        if first_colon(pair@) >= 0 {
            assert(pair@[first_colon(pair@)] == ':');
            assert(false);
        }
    }
    Err(EngineError::MalformedHeader)
}

/// Law: encode-then-decode of a header pair with no control characters
/// returns the identical pair.
pub proof fn lemma_header_round_trip(name: Seq<char>, value: Seq<char>)
    requires
        valid_header_name(name),
        valid_header_value(value),
    ensures
        header_pair_ok(name + seq![':'] + value),
        decoded_name(name + seq![':'] + value) == name,
        decoded_value(name + seq![':'] + value) == value,
{
    let e = name + seq![':'] + value;
    lemma_first_colon(e);
    assert(e[name.len() as int] == ':');
    let fc = first_colon(e);
    if fc < 0 {
        assert(e[name.len() as int] != ':');
        assert(false);
    }
    if fc < name.len() {
        assert(e[fc] == name[fc]);
        assert(!is_separator_char(name[fc]));
        assert(false);
    }
    if fc > name.len() {
        assert(e[name.len() as int] != ':');
        assert(false);
    }
    assert(fc == name.len());
    assert(e.subrange(0, fc) =~= name);
    assert(e.subrange(fc + 1, e.len() as int) =~= value);
}

/// Serialize an ordered header list as `name:value` strings, validating
/// every pair; the first invalid pair aborts the whole list with its error.
pub fn header_map_to_vec(hm: &Vec<(String, String)>) -> (r: Result<Vec<String>, EngineError>)
    ensures
        match r {
            Ok(v) => {
                &&& v@.len() == hm@.len()
                &&& forall|i: int|
                    0 <= i < hm@.len() ==> valid_header_name((#[trigger] hm@[i]).0@)
                        && valid_header_value(hm@[i].1@)
                &&& forall|i: int|
                    0 <= i < hm@.len() ==> (#[trigger] v@[i])@ == hm@[i].0@ + seq![':']
                        + hm@[i].1@
            },
            Err(e) => exists|i: int|
                #![auto]
                0 <= i < hm@.len() && (forall|j: int|
                    0 <= j < i ==> valid_header_name((#[trigger] hm@[j]).0@)
                        && valid_header_value(hm@[j].1@)) && ((e
                    == EngineError::InvalidHeaderName && !valid_header_name(hm@[i].0@)) || (e
                    == EngineError::InvalidHeaderValue && valid_header_name(hm@[i].0@)
                    && !valid_header_value(hm@[i].1@))),
        },
{
    let mut res: Vec<String> = Vec::new();
    let mut i: usize = 0;
    while i < hm.len()
        invariant
            0 <= i <= hm@.len(),
            res@.len() == i,
            forall|j: int|
                0 <= j < i ==> valid_header_name((#[trigger] hm@[j]).0@) && valid_header_value(
                    hm@[j].1@,
                ),
            forall|j: int|
                0 <= j < i ==> (#[trigger] res@[j])@ == hm@[j].0@ + seq![':'] + hm@[j].1@,
        decreases hm@.len() - i,
    {
        let pair = &hm[i];
        match encode_header(pair.0.as_str(), pair.1.as_str()) {
            Ok(s) => {
                res.push(s);
            },
            Err(e) => {
                return Err(e);
            },
        }
        i = i + 1;
    }
    Ok(res)
}

/// Successful outcome of `append_headers`: every pair of `h` was decoded and
/// appended, in order, after the untouched prefix `oldv`.
pub open spec fn append_headers_ok(
    h: Seq<String>,
    oldv: Seq<(String, String)>,
    newv: Seq<(String, String)>,
) -> bool {
    &&& newv.len() == oldv.len() + h.len()
    &&& forall|j: int| 0 <= j < oldv.len() ==> newv[j] == oldv[j]
    &&& forall|k: int| 0 <= k < h.len() ==> header_pair_ok((#[trigger] h[k])@)
    &&& forall|k: int|
        0 <= k < h.len() ==> (#[trigger] newv[oldv.len() + k]).0@ == decoded_name(h[k]@)
            && newv[oldv.len() + k].1@ == decoded_value(h[k]@)
}

/// Exact failure point of `append_headers`: the first `i` pairs of `h`
/// decoded and were appended after `oldv`, giving `newv`, and pair `i` was
/// rejected with `e`.
pub open spec fn append_headers_failed_at(
    h: Seq<String>,
    oldv: Seq<(String, String)>,
    newv: Seq<(String, String)>,
    e: EngineError,
    i: int,
) -> bool {
    &&& 0 <= i < h.len()
    &&& newv.len() == oldv.len() + i
    &&& forall|j: int| 0 <= j < oldv.len() ==> newv[j] == oldv[j]
    &&& forall|j: int| 0 <= j < i ==> header_pair_ok((#[trigger] h[j])@)
    &&& !header_pair_ok(h[i]@)
    &&& forall|k: int|
        0 <= k < i ==> (#[trigger] newv[oldv.len() + k]).0@ == decoded_name(h[k]@) && newv[oldv.len()
            + k].1@ == decoded_value(h[k]@)
    &&& ((e == EngineError::MalformedHeader && first_colon(h[i]@) < 0) || (e
        == EngineError::InvalidHeaderName && first_colon(h[i]@) >= 0 && !valid_header_name(
        decoded_name(h[i]@),
    )) || (e == EngineError::InvalidHeaderValue && first_colon(h[i]@) >= 0 && valid_header_name(
        decoded_name(h[i]@),
    ) && !valid_header_value(decoded_value(h[i]@))))
}

/// Decode serialized `name:value` strings and append the pairs, in order, to
/// a header list. Pairs already appended stay appended when a later pair is
/// rejected.
#[verifier::loop_isolation(false)]
pub fn append_headers(res_headers: &mut Vec<(String, String)>, source: Option<Vec<String>>) -> (r:
    Result<(), EngineError>)
    ensures
        match source {
            None => r is Ok && final (res_headers)@ == old(res_headers)@,
            Some(h) => match r {
                Ok(_) => append_headers_ok(h@, old(res_headers)@, final (res_headers)@),
                Err(e) => exists|i: int|
                    #[trigger] append_headers_failed_at(
                        h@,
                        old(res_headers)@,
                        final (res_headers)@,
                        e,
                        i,
                    ),
            },
        },
{
    match source {
        Some(h) => {
            let ghost base = old(res_headers)@.len() as int;
            let mut i: usize = 0;
            while i < h.len()
                invariant
                    0 <= i <= h@.len(),
                    base == old(res_headers)@.len(),
                    res_headers@.len() == base + i,
                    forall|j: int| 0 <= j < base ==> res_headers@[j] == old(res_headers)@[j],
                    forall|j: int| 0 <= j < i ==> header_pair_ok((#[trigger] h@[j])@),
                    forall|k: int|
                        0 <= k < i ==> (#[trigger] res_headers@[base + k]).0@ == decoded_name(
                            h@[k]@,
                        ) && res_headers@[base + k].1@ == decoded_value(h@[k]@),
                decreases h@.len() - i,
            {
                let pair = &h[i];
                match decode_header(pair.as_str()) {
                    Ok(kv) => {
                        let (k, v) = kv;
                        if !header_name_ok(k.as_str()) {
                            proof {
                                assert(!header_pair_ok(h@[i as int]@));
                                assert(append_headers_failed_at(
                                    h@,
                                    old(res_headers)@,
                                    res_headers@,
                                    EngineError::InvalidHeaderName,
                                    i as int,
                                ));
                            }
                            return Err(EngineError::InvalidHeaderName);
                        }
                        if !header_value_ok(v.as_str()) {
                            proof {
                                assert(!header_pair_ok(h@[i as int]@));
                                assert(append_headers_failed_at(
                                    h@,
                                    old(res_headers)@,
                                    res_headers@,
                                    EngineError::InvalidHeaderValue,
                                    i as int,
                                ));
                            }
                            return Err(EngineError::InvalidHeaderValue);
                        }
                        res_headers.push((k, v));
                    },
                    Err(_) => {
                        proof {
                            assert(!header_pair_ok(h@[i as int]@));
                            assert(append_headers_failed_at(
                                h@,
                                old(res_headers)@,
                                res_headers@,
                                EngineError::MalformedHeader,
                                i as int,
                            ));
                        }
                        return Err(EngineError::MalformedHeader);
                    },
                }
                i = i + 1;
            }
            proof {
                assert(append_headers_ok(h@, old(res_headers)@, res_headers@));
            }
            Ok(())
        },
        None => Ok(()),
    }
}

/// Law: encode-then-decode of a whole header list with no control
/// characters returns the identical ordered list, element by element.
pub proof fn lemma_header_list_round_trip(
    pairs: Seq<(Seq<char>, Seq<char>)>,
    encoded: Seq<Seq<char>>,
)
    requires
        pairs.len() == encoded.len(),
        forall|i: int|
            0 <= i < pairs.len() ==> valid_header_name((#[trigger] pairs[i]).0)
                && valid_header_value(pairs[i].1) && encoded[i] == pairs[i].0 + seq![':']
                + pairs[i].1,
    ensures
        forall|i: int|
            0 <= i < pairs.len() ==> header_pair_ok(#[trigger] encoded[i]) && decoded_name(
                encoded[i],
            ) == pairs[i].0 && decoded_value(encoded[i]) == pairs[i].1,
{
    assert forall|i: int|
        0 <= i < pairs.len() implies header_pair_ok(#[trigger] encoded[i]) && decoded_name(
        encoded[i],
    ) == pairs[i].0 && decoded_value(encoded[i]) == pairs[i].1 by {
        lemma_header_round_trip(pairs[i].0, pairs[i].1);
    }
}

/// Law: a header value containing a control character is invalid, so
/// encoding rejects it with an error rather than passing it through.
pub proof fn lemma_control_value_rejected(value: Seq<char>, i: int)
    requires
        0 <= i < value.len(),
        is_control_char(value[i]),
    ensures
        !valid_header_value(value),
{
}

} // verus!
