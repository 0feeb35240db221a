//! Endpoint descriptors: a client handle for one model-serving backend,
//! its error taxonomy, and the parsing of configured endpoint tokens of
//! the form `address@weight`.

use vstd::prelude::*;

use vstd::string::StrSliceExecFns;

verus! {

/// Errors surfaced by talking to a backend.
#[derive(Debug, Clone)]
pub enum OllamaError {
    ConnectionError(String),
    ApiError(String),
    InvalidResponse(String),
}

/// Holds when `c` is an ASCII decimal digit.
pub open spec fn is_digit(c: char) -> bool {
    48 <= c as int && c as int <= 57
}

/// Holds when every character of `s` is an ASCII decimal digit.
pub open spec fn all_digits(s: Seq<char>) -> bool {
    forall|i: int| 0 <= i < s.len() ==> is_digit(#[trigger] s[i])
}

/// The value of `s` read as a decimal numeral.
pub open spec fn dec_val(s: Seq<char>) -> int
    decreases s.len(),
{
    if s.len() == 0 {
        0
    } else {
        dec_val(s.drop_last()) * 10 + (s.last() as int - 48)
    }
}

/// The replica weight a weight field denotes: its decimal value where the
/// field is a non-empty digit string denoting a representable positive
/// number, and 1 otherwise.
pub open spec fn weight_of(s: Seq<char>) -> usize {
    if s.len() > 0 && all_digits(s) && 1 <= dec_val(s) <= usize::MAX as int {
        dec_val(s) as usize
    } else {
        1usize
    }
}

/// Holds when `t` contains an `@`.
pub open spec fn has_at(t: Seq<char>) -> bool {
    exists|i: int| 0 <= i < t.len() && t[i] == '@'
}

/// The index of the first `@` of `t`.
pub open spec fn first_at(t: Seq<char>) -> int
    decreases t.len(),
{
    if t.len() == 0 {
        0
    } else if t[0] == '@' {
        0
    } else {
        1 + first_at(t.drop_first())
    }
}

/// The address part of an endpoint token: everything left of the first
/// `@`, or the whole token when it has none.
pub open spec fn token_addr(t: Seq<char>) -> Seq<char> {
    if has_at(t) {
        t.take(first_at(t))
    } else {
        t
    }
}

/// The replica weight of an endpoint token: the weight its part right of
/// the first `@` denotes, or 1 when the token has no `@`.
pub open spec fn token_weight(t: Seq<char>) -> usize {
    if has_at(t) {
        weight_of(t.skip(first_at(t) + 1))
    } else {
        1usize
    }
}

proof fn lemma_dec_val_nonneg(s: Seq<char>)
    requires
        all_digits(s),
    ensures
        dec_val(s) >= 0,
    decreases s.len(),
{
    if s.len() > 0 {
        assert(forall|j: int| 0 <= j < s.drop_last().len() ==> #[trigger] s.drop_last()[j] == s[j]);
        lemma_dec_val_nonneg(s.drop_last());
        assert(is_digit(s.last()));
    }
}

/// Reading more digits never shrinks the value of a digit string.
proof fn lemma_dec_val_mono(s: Seq<char>, k: int)
    requires
        all_digits(s),
        0 <= k <= s.len(),
    ensures
        dec_val(s.take(k)) <= dec_val(s),
    decreases s.len() - k,
{
    if k == s.len() {
        assert(s.take(k) =~= s);
    } else {
        lemma_dec_val_mono(s, k + 1);
        assert(s.take(k + 1).drop_last() =~= s.take(k));
        assert(s.take(k + 1).last() == s[k]);
        assert(forall|j: int| 0 <= j < k ==> #[trigger] s.take(k)[j] == s[j]);
        lemma_dec_val_nonneg(s.take(k));
        assert(is_digit(s[k]));
        assert(dec_val(s.take(k + 1)) == dec_val(s.take(k)) * 10 + (s[k] as int - 48));
        assert(dec_val(s.take(k)) * 10 >= dec_val(s.take(k)));
    }
}

proof fn lemma_first_at(t: Seq<char>, i: int)
    requires
        0 <= i < t.len(),
        t[i] == '@',
        forall|j: int| 0 <= j < i ==> t[j] != '@',
    ensures
        has_at(t),
        first_at(t) == i,
    decreases i,
{
    if t[0] == '@' {
        assert(i == 0);
    } else {
        assert(i >= 1);
        assert(forall|j: int|
            0 <= j < t.drop_first().len() ==> #[trigger] t.drop_first()[j] == t[j + 1]);
        lemma_first_at(t.drop_first(), i - 1);
    }
}

/// Reads a replica weight field: the decimal value of a non-empty digit
/// string when it denotes a representable positive number, and the
/// default weight 1 otherwise.
pub fn parse_weight(s: &str) -> (w: usize)
    ensures
        w == weight_of(s@),
{
    let n = s.unicode_len();
    if n == 0 {
        return 1;
    }
    let mut acc: usize = 0;
    let mut i: usize = 0;
    while i < n
        invariant
            i <= n,
            n == s@.len(),
            forall|j: int| 0 <= j < i ==> is_digit(#[trigger] s@[j]),
            acc as int == dec_val(s@.take(i as int)),
        decreases n - i,
    {
        let c = s.get_char(i);
        let code = c as u32;
        if code < 48 || code > 57 {
            proof {
                assert(!is_digit(s@[i as int]));
            }
            return 1;
        }
        let d = (code - 48) as usize;
        proof {
            assert(s@.take(i as int + 1).drop_last() =~= s@.take(i as int));
            assert(s@.take(i as int + 1).last() == s@[i as int]);
        }
        let acc10 = match acc.checked_mul(10) {
            Option::Some(x) => x,
            Option::None => {
                proof {
                    lemma_weight_overflow(s@, i as int, acc as int * 10 + d as int);
                }
                return 1;
            },
        };
        acc = match acc10.checked_add(d) {
            Option::Some(x) => x,
            Option::None => {
                proof {
                    lemma_weight_overflow(s@, i as int, acc as int * 10 + d as int);
                }
                return 1;
            },
        };
        i = i + 1;
    }
    proof {
        assert(s@.take(n as int) =~= s@);
    }
    if acc == 0 {
        1
    } else {
        acc
    }
}

/// A digit string whose prefix already exceeds `usize::MAX` denotes no
/// representable weight.
proof fn lemma_weight_overflow(s: Seq<char>, i: int, prefix_val: int)
    requires
        0 <= i < s.len(),
        forall|j: int| 0 <= j <= i ==> is_digit(#[trigger] s[j]),
        dec_val(s.take(i + 1)) == prefix_val,
        prefix_val > usize::MAX as int,
    ensures
        weight_of(s) == 1,
{
    if all_digits(s) {
        lemma_dec_val_mono(s, i + 1);
    }
}

/// Splits one configured endpoint token on its first `@`: the address,
/// and the replica weight the remainder denotes (1 when absent or not a
/// representable positive number).
pub fn parse_endpoint_token(token: &str) -> (r: (String, usize))
    ensures
        r.0@ == token_addr(token@),
        r.1 == token_weight(token@),
{
    let n = token.unicode_len();
    let mut i: usize = 0;
    while i < n && token.get_char(i) != '@'
        invariant
            i <= n,
            n == token@.len(),
            forall|j: int| 0 <= j < i ==> token@[j] != '@',
        decreases n - i,
    {
        i = i + 1;
    }
    if i == n {
        proof {
            assert(!has_at(token@));
        }
        (token.to_owned(), 1)
    } else {
        proof {
            lemma_first_at(token@, i as int);
        }
        let addr = token.substring_char(0, i).to_owned();
        let tail = token.substring_char(i + 1, n);
        let w = parse_weight(tail);
        proof {
            assert(token@.subrange(0, i as int) =~= token@.take(i as int));
            assert(token@.subrange(i as int + 1, n as int) =~= token@.skip(i as int + 1));
        }
        (addr, w)
    }
}

/// Mathematical content of a client handle: the backend's address, the
/// model to invoke on it, and its replica weight.
pub ghost struct EndpointModel {
    pub url: Seq<char>,
    pub model_name: Seq<char>,
    pub count: usize,
}

/// A handle for one model-serving backend: its base address, the model
/// name to invoke, and the number of round-robin slots it receives.
#[derive(Debug, Clone)]
pub struct OllamaClient {
    base_url: String,
    model: String,
    count: usize,
}

impl View for OllamaClient {
    type V = EndpointModel;

    closed spec fn view(&self) -> EndpointModel {
        EndpointModel { url: self.base_url@, model_name: self.model@, count: self.count }
    }
}

impl OllamaClient {
    /// A client for the backend at `base_url`, invoking `model`, with
    /// `count` round-robin slots.
    pub fn new(base_url: &str, model: &str, count: usize) -> (c: Self)
        ensures
            c@ == (EndpointModel { url: base_url@, model_name: model@, count }),
    {
        OllamaClient { base_url: base_url.to_owned(), model: model.to_owned(), count }
    }

    /// The backend's base address.
    pub fn url(&self) -> (r: &str)
        ensures
            r@ == self@.url,
    {
        self.base_url.as_str()
    }

    /// The model invoked on this backend.
    pub fn model(&self) -> (r: &str)
        ensures
            r@ == self@.model_name,
    {
        self.model.as_str()
    }

    /// The number of round-robin slots this backend receives.
    pub fn count(&self) -> (r: usize)
        ensures
            r == self@.count,
    {
        self.count
    }

    /// A client built from one configured endpoint token `address@weight`,
    /// where a missing or malformed weight defaults to 1.
    pub fn from_token(token: &str, model: &str) -> (c: Self)
        ensures
            c@ == (EndpointModel {
                url: token_addr(token@),
                model_name: model@,
                count: token_weight(token@),
            }),
    {
        let parts = parse_endpoint_token(token);
        OllamaClient::new(parts.0.as_str(), model, parts.1)
    }

    /// A client equal to this one.
    pub fn duplicate(&self) -> (c: Self)
        ensures
            c@ == self@,
    {
        OllamaClient {
            base_url: self.base_url.clone(),
            model: self.model.clone(),
            count: self.count,
        }
    }
}

} // verus!
