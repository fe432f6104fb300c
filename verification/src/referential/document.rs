//! Reading the referential's JSON documents: a value's fields, mandatory or
//! optional, and their texts, arrays, numbers, dates, ways and cash
//! sources, each failure a referential error with its message.
use crate::date::{chrono_parse_rfc3339, chrono_parse_ymd, Date, DateTime};
use crate::error::{concat, decimal_text, digit_char, Error};
use crate::portfolio::{spec_way_name, CashVariationSource, Way};
use vstd::prelude::*;
use vstd::string::StrSliceExecFns;

verus! {

/// A JSON value of a referential document; a number is kept as the text
/// `serde_json` writes for it.
#[derive(Debug)]
pub enum Document {
    Null,
    Bool(bool),
    Number(String),
    Text(String),
    Array(Vec<Document>),
    Object(Vec<(String, Document)>),
}

/// The position of the first of the first `n` members named `name`.
pub open spec fn spec_member(members: Seq<(String, Document)>, name: Seq<char>, n: int) -> Option<int>
    decreases n,
{
    if n <= 0 {
        None
    } else {
        match spec_member(members, name, n - 1) {
            Some(i) => Some(i),
            None => if members[n - 1].0@ == name {
                Some(n - 1)
            } else {
                None
            },
        }
    }
}

/// The field `name` of `value`, if `value` is an object that has one;
/// `Err` with the message of a value that is no object.
pub open spec fn spec_optional_field(value: Document, name: Seq<char>) -> Result<Option<Document>, Seq<char>> {
    match value {
        Document::Object(members) => match spec_member(members@, name, members@.len() as int) {
            Some(i) => Ok(Some(members@[i].1)),
            None => Ok(None),
        },
        _ => Err("field must be an object"@),
    }
}

/// The mandatory field `name` of `value`, or the message of its absence.
pub open spec fn spec_field(value: Document, name: Seq<char>) -> Result<Document, Seq<char>> {
    match spec_optional_field(value, name) {
        Ok(Some(field)) => Ok(field),
        Ok(None) => Err("field "@ + name + " is mandatory"@),
        Err(msg) => Err(msg),
    }
}

/// `r` is the referential error with message `msg`.
pub open spec fn fails_with<T>(r: Result<T, Error>, msg: Seq<char>) -> bool {
    r matches Err(Error::Referential(m)) && m@ == msg
}

/// A character is a decimal digit.
pub open spec fn is_digit(c: char) -> bool {
    48 <= c as int <= 57
}

/// The value of the decimal digits `digits`.
pub open spec fn digits_value(digits: Seq<char>) -> nat
    decreases digits.len(),
{
    if digits.len() == 0 {
        0
    } else {
        digits_value(digits.drop_last()) * 10 + (digits.last() as int - 48) as nat
    }
}

/// The number text is an unsigned integer that fits in a `u64`: decimal
/// digits only, as `serde_json` writes such a number.
pub open spec fn is_u64_text(text: Seq<char>) -> bool {
    &&& text.len() > 0
    &&& forall|i: int| 0 <= i < text.len() ==> is_digit(#[trigger] text[i])
    &&& digits_value(text) <= u64::MAX
}

/// The mandatory field `name` of `value`.
pub fn field<'a>(value: &'a Document, name: &str) -> (r: Result<&'a Document, Error>)
    ensures
        match spec_field(*value, name@) {
            Ok(f) => r matches Ok(v) && *v == f,
            Err(msg) => fails_with(r, msg),
        },
{
    match optional_field(value, name) {
        Ok(Some(v)) => Ok(v),
        Ok(None) => {
            let head = concat("field ", name);
            Err(Error::new_referential(concat(head.as_str(), " is mandatory")))
        },
        Err(err) => Err(err),
    }
}

/// The field `name` of `value`, `None` when it has none.
#[verifier::loop_isolation(false)]
pub fn optional_field<'a>(value: &'a Document, name: &str) -> (r: Result<Option<&'a Document>, Error>)
    ensures
        match spec_optional_field(*value, name@) {
            Ok(Some(f)) => r matches Ok(Some(v)) && *v == f,
            Ok(None) => r matches Ok(None),
            Err(msg) => fails_with(r, msg),
        },
{
    match value {
        Document::Object(members) => {
            let wanted = name.to_owned();
            let mut i: usize = 0;
            while i < members.len()
                invariant
                    i <= members@.len(),
                    wanted@ == name@,
                    spec_member(members@, name@, i as int) is None,
                decreases members@.len() - i,
            {
                if members[i].0 == wanted {
                    proof {
                        lemma_member_stays(members@, name@, i as int + 1, members@.len() as int);
                    }
                    return Ok(Some(&members[i].1));
                }
                i = i + 1;
            }
            Ok(None)
        },
        _ => Err(Error::new_referential("field must be an object".to_owned())),
    }
}

proof fn lemma_member_stays(members: Seq<(String, Document)>, name: Seq<char>, n: int, k: int)
    requires
        0 <= n <= k,
        spec_member(members, name, n) is Some,
    ensures
        spec_member(members, name, k) == spec_member(members, name, n),
    decreases k - n,
{
    if k > n {
        lemma_member_stays(members, name, n, k - 1);
    }
}

/// The text of a string value.
pub fn text(value: &Document) -> (r: Result<String, Error>)
    ensures
        match *value {
            Document::Text(s) => r matches Ok(t) && t@ == s@,
            _ => fails_with(r, "field must be a string"@),
        },
{
    match value {
        Document::Text(s) => Ok(s.clone()),
        _ => Err(Error::new_referential("field must be a string".to_owned())),
    }
}

/// The items of an array value.
pub fn array(value: &Document) -> (r: Result<&Vec<Document>, Error>)
    ensures
        match *value {
            Document::Array(items) => r matches Ok(v) && *v == items,
            _ => fails_with(r, "field must be an array"@),
        },
{
    match value {
        Document::Array(items) => Ok(items),
        _ => Err(Error::new_referential("field must be an array".to_owned())),
    }
}

/// The text of a number value, to be read as a floating-point number.
pub fn number_text(value: &Document) -> (r: Result<&String, Error>)
    ensures
        match *value {
            Document::Number(s) => r matches Ok(t) && t@ == s@,
            _ => fails_with(r, "field must be a f64"@),
        },
{
    match value {
        Document::Number(s) => Ok(s),
        _ => Err(Error::new_referential("field must be a f64".to_owned())),
    }
}

proof fn lemma_digits_prefix(text: Seq<char>, i: int)
    requires
        0 <= i < text.len(),
    ensures
        digits_value(text.take(i + 1)) == digits_value(text.take(i)) * 10 + (text[i] as int - 48) as nat,
{
    assert(text.take(i + 1).drop_last() =~= text.take(i));
}

proof fn lemma_digits_grow(text: Seq<char>, i: int, k: int)
    requires
        0 <= i <= k <= text.len(),
        forall|j: int| 0 <= j < text.len() ==> is_digit(#[trigger] text[j]),
    ensures
        digits_value(text.take(i)) <= digits_value(text.take(k)),
    decreases k - i,
{
    if k > i {
        lemma_digits_grow(text, i, k - 1);
        lemma_digits_prefix(text, k - 1);
    }
}

/// The value of a number that is an unsigned integer fitting in a `u64`.
#[verifier::loop_isolation(false)]
pub fn unsigned(value: &Document) -> (r: Result<u64, Error>)
    ensures
        match *value {
            Document::Number(s) => if is_u64_text(s@) {
                r == Ok::<u64, Error>(digits_value(s@) as u64)
            } else {
                fails_with(r, "field must be a u64"@)
            },
            _ => fails_with(r, "field must be a u64"@),
        },
{
    let digits = match value {
        Document::Number(s) => s.as_str(),
        _ => {
            return Err(Error::new_referential("field must be a u64".to_owned()));
        },
    };
    let len = digits.unicode_len();
    if len == 0 {
        return Err(Error::new_referential("field must be a u64".to_owned()));
    }
    let mut i: usize = 0;
    while i < len
        invariant
            i <= len,
            len == digits@.len(),
            forall|j: int| 0 <= j < i ==> is_digit(#[trigger] digits@[j]),
        decreases len - i,
    {
        let c = digits.get_char(i);
        if !('0' <= c && c <= '9') {
            return Err(Error::new_referential("field must be a u64".to_owned()));
        }
        i = i + 1;
    }
    let mut total: u64 = 0;
    let mut k: usize = 0;
    while k < len
        invariant
            k <= len,
            len == digits@.len(),
            forall|j: int| 0 <= j < len ==> is_digit(#[trigger] digits@[j]),
            total == digits_value(digits@.take(k as int)),
        decreases len - k,
    {
        let c = digits.get_char(k);
        let d = (c as u32 - 48) as u64;
        proof {
            lemma_digits_prefix(digits@, k as int);
        }
        let next = match total.checked_mul(10) {
            Some(t) => t.checked_add(d),
            None => None,
        };
        match next {
            Some(t) => {
                total = t;
            },
            None => {
                proof {
                    lemma_digits_grow(digits@, k as int + 1, len as int);
                    assert(digits@.take(len as int) =~= digits@);
                }
                return Err(Error::new_referential("field must be a u64".to_owned()));
            },
        }
        k = k + 1;
    }
    assert(digits@.take(len as int) =~= digits@);
    Ok(total)
}

/// The text of the mandatory string field `name`.
pub fn read_text(value: &Document, name: &str) -> (r: Result<String, Error>)
    ensures
        match spec_field(*value, name@) {
            Ok(Document::Text(s)) => r matches Ok(t) && t@ == s@,
            Ok(_) => fails_with(r, "field must be a string"@),
            Err(msg) => fails_with(r, msg),
        },
{
    let f = field(value, name)?;
    text(f)
}

/// The text of the optional string field `name`.
pub fn read_optional_text(value: &Document, name: &str) -> (r: Result<Option<String>, Error>)
    ensures
        match spec_optional_field(*value, name@) {
            Ok(Some(Document::Text(s))) => r matches Ok(Some(t)) && t@ == s@,
            Ok(Some(_)) => fails_with(r, "field must be a string"@),
            Ok(None) => r matches Ok(None),
            Err(msg) => fails_with(r, msg),
        },
{
    match optional_field(value, name)? {
        Some(f) => {
            let t = text(f)?;
            Ok(Some(t))
        },
        None => Ok(None),
    }
}

/// The date (`YYYY-MM-DD`) of the mandatory field `name`.
pub fn read_date(value: &Document, name: &str) -> (r: Result<Date, Error>)
    ensures
        match spec_field(*value, name@) {
            Ok(Document::Text(s)) => match chrono_parse_ymd(s@) {
                Some(day) => r matches Ok(d) && d@ == day,
                None => r matches Err(Error::Referential(_)),
            },
            Ok(_) => fails_with(r, "field must be a string"@),
            Err(msg) => fails_with(r, msg),
        },
{
    let t = read_text(value, name)?;
    Date::from_text(t.as_str())
}

/// The date and time (RFC 3339, kept as written) of the mandatory field `name`.
pub fn read_datetime(value: &Document, name: &str) -> (r: Result<DateTime, Error>)
    ensures
        match spec_field(*value, name@) {
            Ok(Document::Text(s)) => match chrono_parse_rfc3339(s@) {
                Some(moment) => r matches Ok(dt) && (dt.date@, dt.secs as int, dt.nanos as int) == moment,
                None => r matches Err(Error::Referential(_)),
            },
            Ok(_) => fails_with(r, "field must be a string"@),
            Err(msg) => fails_with(r, msg),
        },
{
    let t = read_text(value, name)?;
    DateTime::from_text(t.as_str())
}

/// The way ("buy" or "sell") of the mandatory field `name`.
pub fn read_way(value: &Document, name: &str) -> (r: Result<Way, Error>)
    ensures
        match spec_field(*value, name@) {
            Ok(Document::Text(s)) => match r {
                Ok(way) => spec_way_name(way) == s@,
                Err(_) => s@ != "buy"@ && s@ != "sell"@ && fails_with(r, "unable to convert "@ + s@ + " into "@ + "Way"@),
            },
            Ok(_) => fails_with(r, "field must be a string"@),
            Err(msg) => fails_with(r, msg),
        },
{
    let t = read_text(value, name)?;
    Way::from_name(t.as_str())
}

/// The cash variation source ("payment") of the mandatory field `name`.
pub fn read_source(value: &Document, name: &str) -> (r: Result<CashVariationSource, Error>)
    ensures
        match spec_field(*value, name@) {
            Ok(Document::Text(s)) => if s@ == "payment"@ {
                r == Ok::<CashVariationSource, Error>(CashVariationSource::Payment)
            } else {
                fails_with(r, "unable to convert "@ + s@ + " into "@ + "CashVariationSource"@)
            },
            Ok(_) => fails_with(r, "field must be a string"@),
            Err(msg) => fails_with(r, msg),
        },
{
    let t = read_text(value, name)?;
    CashVariationSource::from_name(t.as_str())
}

/// A number written in decimal digits reads back as itself: the text of
/// `n` is made of digits only and their value is `n`.
pub proof fn lemma_decimal_reads_back(n: nat)
    ensures
        forall|i: int| 0 <= i < decimal_text(n).len() ==> is_digit(#[trigger] decimal_text(n)[i]),
        decimal_text(n).len() > 0,
        digits_value(decimal_text(n)) == n,
    decreases n,
{
    if n < 10 {
        assert(decimal_text(n).drop_last() =~= Seq::<char>::empty());
        assert(digits_value(decimal_text(n)) == digits_value(Seq::<char>::empty()) * 10 + (decimal_text(n).last() as int
            - 48) as nat);
    } else {
        lemma_decimal_reads_back(n / 10);
        let head = decimal_text(n / 10);
        let text = decimal_text(n);
        assert(text.drop_last() =~= head);
        assert((n / 10) * 10 + n % 10 == n) by (nonlinear_arith);
    }
}

} // verus!
