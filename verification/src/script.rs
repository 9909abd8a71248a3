//! The script grammar: a script is a sequence of statements separated by
//! semicolons, each statement a call `name(arg, ...)`, each argument an
//! integer literal or a double-quoted text literal. Empty statements are
//! allowed, whitespace may stand anywhere between tokens.
//!
//! The grammar is defined by the spec functions over byte sequences; the
//! executable parser is proved to return exactly what they describe. A
//! position in an `Err` is the byte offset at which the text stops following
//! the grammar.

use vstd::prelude::*;

verus! {

/// A parsed argument: an integer or a quoted text literal.
pub enum Arg {
    Int(i64),
    Text(Vec<u8>),
}

/// The mathematical value of an argument.
pub ghost enum ArgModel {
    Int(int),
    Text(Seq<u8>),
}

impl View for Arg {
    type V = ArgModel;

    open spec fn view(&self) -> ArgModel {
        match self {
            Arg::Int(v) => ArgModel::Int(*v as int),
            Arg::Text(t) => ArgModel::Text(t@),
        }
    }
}

/// A parsed statement: the called name and its arguments.
pub struct Call {
    pub name: Vec<u8>,
    pub args: Vec<Arg>,
}

/// The mathematical value of a statement.
#[verifier::ext_equal]
pub ghost struct CallModel {
    pub name: Seq<u8>,
    pub args: Seq<ArgModel>,
}

impl View for Call {
    type V = CallModel;

    open spec fn view(&self) -> CallModel {
        CallModel { name: self.name@, args: self.args@.map_values(|a: Arg| a@) }
    }
}

/// Space, tab, line feed or carriage return.
pub open spec fn is_ws(b: u8) -> bool {
    b == 32 || b == 9 || b == 10 || b == 13
}

/// A name byte: a lower-case letter or an underscore.
pub open spec fn is_name_byte(b: u8) -> bool {
    (97 <= b && b <= 122) || b == 95
}

/// A decimal digit.
pub open spec fn is_digit(b: u8) -> bool {
    48 <= b && b <= 57
}

/// The first position at or after `i` that holds no whitespace.
pub open spec fn skip_ws(s: Seq<u8>, i: int) -> int
    decreases s.len() - i,
{
    if 0 <= i < s.len() && is_ws(s[i]) {
        skip_ws(s, i + 1)
    } else {
        i
    }
}

/// The first position at or after `i` that holds no name byte.
pub open spec fn scan_name(s: Seq<u8>, i: int) -> int
    decreases s.len() - i,
{
    if 0 <= i < s.len() && is_name_byte(s[i]) {
        scan_name(s, i + 1)
    } else {
        i
    }
}

/// The first position at or after `i` that holds no digit.
pub open spec fn scan_digits(s: Seq<u8>, i: int) -> int
    decreases s.len() - i,
{
    if 0 <= i < s.len() && is_digit(s[i]) {
        scan_digits(s, i + 1)
    } else {
        i
    }
}

/// The first position at or after `i` that holds a double quote,
/// or the length if there is none.
pub open spec fn scan_text(s: Seq<u8>, i: int) -> int
    decreases s.len() - i,
{
    if !(0 <= i < s.len()) {
        s.len() as int
    } else if s[i] == 34 {
        i
    } else {
        scan_text(s, i + 1)
    }
}

/// The value of the decimal digits `s[i .. j]`.
pub open spec fn digits_val(s: Seq<u8>, i: int, j: int) -> int
    decreases j - i,
{
    if j <= i {
        0
    } else {
        digits_val(s, i, j - 1) * 10 + (s[j - 1] - 48)
    }
}

/// Ten to the `n`.
pub open spec fn pow10(n: nat) -> int
    decreases n,
{
    if n == 0 {
        1
    } else {
        10 * pow10((n - 1) as nat)
    }
}

/// An integer literal at `i`: an optional minus sign and at most 18 digits.
/// Yields the value and the position after it.
pub open spec fn parse_int(s: Seq<u8>, i: int) -> Result<(int, int), int> {
    let neg = 0 <= i < s.len() && s[i] == 45;
    let i0 = if neg {
        i + 1
    } else {
        i
    };
    let j = scan_digits(s, i0);
    if j == i0 || j - i0 > 18 {
        Result::Err(i0)
    } else if neg {
        Result::Ok((-digits_val(s, i0, j), j))
    } else {
        Result::Ok((digits_val(s, i0, j), j))
    }
}

/// A text literal at `i`: the bytes between a pair of double quotes.
/// Yields the content and the position after the closing quote.
pub open spec fn parse_text(s: Seq<u8>, i: int) -> Result<(Seq<u8>, int), int> {
    if !(0 <= i < s.len() && s[i] == 34) {
        Result::Err(i)
    } else {
        let j = scan_text(s, i + 1);
        if j >= s.len() {
            Result::Err(i)
        } else {
            Result::Ok((s.subrange(i + 1, j), j + 1))
        }
    }
}

/// An argument at `i`: a text literal if a quote stands there,
/// else an integer literal.
pub open spec fn parse_arg(s: Seq<u8>, i: int) -> Result<(ArgModel, int), int> {
    if 0 <= i < s.len() && s[i] == 34 {
        match parse_text(s, i) {
            Result::Ok((t, j)) => Result::Ok((ArgModel::Text(t), j)),
            Result::Err(p) => Result::Err(p),
        }
    } else {
        match parse_int(s, i) {
            Result::Ok((v, j)) => Result::Ok((ArgModel::Int(v), j)),
            Result::Err(p) => Result::Err(p),
        }
    }
}

/// `skip_ws` stays within bounds and stops on non-whitespace.
pub proof fn lemma_skip_ws(s: Seq<u8>, i: int)
    requires
        0 <= i <= s.len(),
    ensures
        i <= skip_ws(s, i) <= s.len(),
        skip_ws(s, i) < s.len() ==> !is_ws(s[skip_ws(s, i)]),
    decreases s.len() - i,
{
    if i < s.len() && is_ws(s[i]) {
        lemma_skip_ws(s, i + 1);
    }
}

/// `scan_name` stays within bounds.
pub proof fn lemma_scan_name(s: Seq<u8>, i: int)
    requires
        0 <= i <= s.len(),
    ensures
        i <= scan_name(s, i) <= s.len(),
    decreases s.len() - i,
{
    if i < s.len() && is_name_byte(s[i]) {
        lemma_scan_name(s, i + 1);
    }
}

/// `scan_digits` stays within bounds and passes digits only.
pub proof fn lemma_scan_digits(s: Seq<u8>, i: int)
    requires
        0 <= i <= s.len(),
    ensures
        i <= scan_digits(s, i) <= s.len(),
        forall|k: int| i <= k < scan_digits(s, i) ==> is_digit(#[trigger] s[k]),
    decreases s.len() - i,
{
    if i < s.len() && is_digit(s[i]) {
        lemma_scan_digits(s, i + 1);
    }
}

/// `scan_text` stays within bounds.
pub proof fn lemma_scan_text(s: Seq<u8>, i: int)
    requires
        0 <= i <= s.len(),
    ensures
        i <= scan_text(s, i) <= s.len(),
        scan_text(s, i) < s.len() ==> s[scan_text(s, i)] == 34,
    decreases s.len() - i,
{
    if i < s.len() && s[i] != 34 {
        lemma_scan_text(s, i + 1);
    }
}

/// A parsed argument ends strictly after it began, within bounds.
pub proof fn lemma_parse_arg_advances(s: Seq<u8>, i: int)
    requires
        0 <= i <= s.len(),
        parse_arg(s, i) is Ok,
    ensures
        i < parse_arg(s, i)->Ok_0.1 <= s.len(),
{
    if 0 <= i < s.len() && s[i] == 34 {
        lemma_scan_text(s, i + 1);
    } else {
        let neg = 0 <= i < s.len() && s[i] == 45;
        let i0 = if neg {
            i + 1
        } else {
            i
        };
        lemma_scan_digits(s, i0);
    }
}

/// The rest of an argument list, after the opening parenthesis and any
/// whitespace, beginning at an argument: arguments separated by commas,
/// closed by a parenthesis. Yields the arguments and the position after
/// the closing parenthesis.
pub open spec fn parse_args_rest(s: Seq<u8>, i: int) -> Result<(Seq<ArgModel>, int), int>
    decreases s.len() - i,
        when 0 <= i <= s.len()
{
    match parse_arg(s, i) {
        Result::Err(p) => Result::Err(p),
        Result::Ok((a, j)) => {
            proof {
                lemma_parse_arg_advances(s, i);
            }
            let j1 = skip_ws(s, j);
            proof {
                lemma_skip_ws(s, j);
            }
            if j1 < s.len() && s[j1] == 41 {
                Result::Ok((seq![a], j1 + 1))
            } else if j1 < s.len() && s[j1] == 44 {
                let j2 = skip_ws(s, j1 + 1);
                proof {
                    lemma_skip_ws(s, j1 + 1);
                }
                match parse_args_rest(s, j2) {
                    Result::Ok((rest, k)) => Result::Ok((seq![a] + rest, k)),
                    Result::Err(p) => Result::Err(p),
                }
            } else {
                Result::Err(j1)
            }
        },
    }
}

/// A parsed argument list ends strictly after it began, within bounds.
pub proof fn lemma_parse_args_rest_advances(s: Seq<u8>, i: int)
    requires
        0 <= i <= s.len(),
        parse_args_rest(s, i) is Ok,
    ensures
        i < parse_args_rest(s, i)->Ok_0.1 <= s.len(),
    decreases s.len() - i,
{
    let r = parse_arg(s, i);
    lemma_parse_arg_advances(s, i);
    match r {
        Result::Err(_) => {},
        Result::Ok((a, j)) => {
            lemma_skip_ws(s, j);
            let j1 = skip_ws(s, j);
            if j1 < s.len() && s[j1] == 41 {
            } else if j1 < s.len() && s[j1] == 44 {
                lemma_skip_ws(s, j1 + 1);
                let j2 = skip_ws(s, j1 + 1);
                if parse_args_rest(s, j2) is Ok {
                    lemma_parse_args_rest_advances(s, j2);
                }
            }
        },
    }
}

/// A call at `i`: a nonempty name, an opening parenthesis, an optionally
/// empty argument list, a closing parenthesis. Yields the call and the
/// position after it.
pub open spec fn parse_call(s: Seq<u8>, i: int) -> Result<(CallModel, int), int> {
    let j = scan_name(s, i);
    if j == i {
        Result::Err(i)
    } else {
        let name = s.subrange(i, j);
        let j1 = skip_ws(s, j);
        if j1 < s.len() && s[j1] == 40 {
            let j2 = skip_ws(s, j1 + 1);
            if j2 < s.len() && s[j2] == 41 {
                Result::Ok((CallModel { name, args: Seq::empty() }, j2 + 1))
            } else {
                match parse_args_rest(s, j2) {
                    Result::Ok((args, k)) => Result::Ok((CallModel { name, args }, k)),
                    Result::Err(p) => Result::Err(p),
                }
            }
        } else {
            Result::Err(j1)
        }
    }
}

/// A parsed call ends strictly after it began, within bounds.
pub proof fn lemma_parse_call_advances(s: Seq<u8>, i: int)
    requires
        0 <= i <= s.len(),
        parse_call(s, i) is Ok,
    ensures
        i < parse_call(s, i)->Ok_0.1 <= s.len(),
{
    lemma_scan_name(s, i);
    let j = scan_name(s, i);
    if j != i {
        lemma_skip_ws(s, j);
        let j1 = skip_ws(s, j);
        if j1 < s.len() && s[j1] == 40 {
            lemma_skip_ws(s, j1 + 1);
            let j2 = skip_ws(s, j1 + 1);
            if j2 < s.len() && s[j2] == 41 {
            } else if parse_args_rest(s, j2) is Ok {
                lemma_parse_args_rest_advances(s, j2);
            }
        }
    }
}

/// The statements from position `i` to the end of the script: calls
/// separated by semicolons, any of them empty.
pub open spec fn parse_stmts(s: Seq<u8>, i: int) -> Result<Seq<CallModel>, int>
    decreases s.len() - i,
        when 0 <= i <= s.len()
{
    let j = skip_ws(s, i);
    proof {
        lemma_skip_ws(s, i);
    }
    if j >= s.len() {
        Result::Ok(Seq::empty())
    } else if s[j] == 59 {
        parse_stmts(s, j + 1)
    } else {
        match parse_call(s, j) {
            Result::Err(p) => Result::Err(p),
            Result::Ok((call, k)) => {
                proof {
                    lemma_parse_call_advances(s, j);
                }
                let k1 = skip_ws(s, k);
                proof {
                    lemma_skip_ws(s, k);
                }
                if k1 >= s.len() {
                    Result::Ok(seq![call])
                } else if s[k1] == 59 {
                    match parse_stmts(s, k1 + 1) {
                        Result::Ok(rest) => Result::Ok(seq![call] + rest),
                        Result::Err(p) => Result::Err(p),
                    }
                } else {
                    Result::Err(k1)
                }
            },
        }
    }
}

/// A whole script: its statements, or the position where it stops
/// following the grammar.
pub open spec fn parse_script(s: Seq<u8>) -> Result<Seq<CallModel>, int> {
    parse_stmts(s, 0)
}

/// Whether this byte is whitespace.
fn ws_byte(b: u8) -> (r: bool)
    ensures
        r == is_ws(b),
{
    b == 32 || b == 9 || b == 10 || b == 13
}

/// Whether this byte may stand in a name.
fn name_byte(b: u8) -> (r: bool)
    ensures
        r == is_name_byte(b),
{
    (97 <= b && b <= 122) || b == 95
}

/// Whether this byte is a decimal digit.
fn digit_byte(b: u8) -> (r: bool)
    ensures
        r == is_digit(b),
{
    48 <= b && b <= 57
}

/// Finds the first non-whitespace position at or after `i`.
fn skip_ws_exec(s: &[u8], i: usize) -> (r: usize)
    requires
        i <= s@.len(),
    ensures
        r as int == skip_ws(s@, i as int),
        i <= r <= s@.len(),
{
    let mut k = i;
    while k < s.len() && ws_byte(s[k])
        invariant
            i <= k <= s@.len(),
            skip_ws(s@, i as int) == skip_ws(s@, k as int),
        decreases s@.len() - k,
    {
        k = k + 1;
    }
    k
}

/// Finds the first non-name position at or after `i`.
fn scan_name_exec(s: &[u8], i: usize) -> (r: usize)
    requires
        i <= s@.len(),
    ensures
        r as int == scan_name(s@, i as int),
        i <= r <= s@.len(),
{
    let mut k = i;
    while k < s.len() && name_byte(s[k])
        invariant
            i <= k <= s@.len(),
            scan_name(s@, i as int) == scan_name(s@, k as int),
        decreases s@.len() - k,
    {
        k = k + 1;
    }
    k
}

/// Finds the first non-digit position at or after `i`.
fn scan_digits_exec(s: &[u8], i: usize) -> (r: usize)
    requires
        i <= s@.len(),
    ensures
        r as int == scan_digits(s@, i as int),
        i <= r <= s@.len(),
{
    let mut k = i;
    while k < s.len() && digit_byte(s[k])
        invariant
            i <= k <= s@.len(),
            scan_digits(s@, i as int) == scan_digits(s@, k as int),
        decreases s@.len() - k,
    {
        k = k + 1;
    }
    k
}

/// Finds the first double quote at or after `i`, or the length.
fn scan_text_exec(s: &[u8], i: usize) -> (r: usize)
    requires
        i <= s@.len(),
    ensures
        r as int == scan_text(s@, i as int),
        i <= r <= s@.len(),
{
    let mut k = i;
    while k < s.len() && s[k] != 34
        invariant
            i <= k <= s@.len(),
            scan_text(s@, i as int) == scan_text(s@, k as int),
        decreases s@.len() - k,
    {
        k = k + 1;
    }
    k
}

/// Copies the bytes `s[lo .. hi]` into an owned vector.
fn copy_range(s: &[u8], lo: usize, hi: usize) -> (v: Vec<u8>)
    requires
        lo <= hi <= s@.len(),
    ensures
        v@ == s@.subrange(lo as int, hi as int),
{
    let mut v: Vec<u8> = Vec::new();
    let mut k = lo;
    while k < hi
        invariant
            lo <= k <= hi <= s@.len(),
            v@ == s@.subrange(lo as int, k as int),
        decreases hi - k,
    {
        v.push(s[k]);
        proof {
            assert(v@ =~= s@.subrange(lo as int, k + 1));
        }
        k = k + 1;
    }
    v
}

/// Reads an integer literal at `i`.
fn parse_int_exec(s: &[u8], i: usize) -> (r: Result<(i64, usize), usize>)
    requires
        i <= s@.len(),
    ensures
        match r {
            Ok(p) => parse_int(s@, i as int) == Result::<(int, int), int>::Ok(
                (p.0 as int, p.1 as int),
            ),
            Err(e) => parse_int(s@, i as int) == Result::<(int, int), int>::Err(e as int),
        },
{
    let neg = i < s.len() && s[i] == 45;
    let i0 = if neg {
        i + 1
    } else {
        i
    };
    let j = scan_digits_exec(s, i0);
    proof {
        lemma_scan_digits(s@, i0 as int);
    }
    if j == i0 || j - i0 > 18 {
        return Err(i0);
    }
    proof {
        lemma_pow10_18();
    }
    let mut acc: i64 = 0;
    let mut k = i0;
    while k < j
        invariant
            i0 <= k <= j <= s@.len(),
            j - i0 <= 18,
            forall|m: int| i0 <= m < j ==> is_digit(#[trigger] s@[m]),
            acc as int == digits_val(s@, i0 as int, k as int),
            0 <= acc,
            (acc as int) < pow10((k - i0) as nat),
            pow10(18) == 0x0de0_b6b3_a764_0000,
        decreases j - k,
    {
        proof {
            lemma_pow10_increases((k - i0) as nat, 17);
            lemma_digits_val_bound(s@, i0 as int, k + 1);
        }
        acc = acc * 10 + ((s[k] - 48) as i64);
        k = k + 1;
    }
    if neg {
        Ok((-acc, j))
    } else {
        Ok((acc, j))
    }
}

/// `pow10` grows with its argument.
proof fn lemma_pow10_increases(a: nat, b: nat)
    requires
        a <= b,
    ensures
        pow10(a) <= pow10(b),
        pow10(a) >= 1,
    decreases b,
{
    if a < b {
        lemma_pow10_increases(a, (b - 1) as nat);
    } else if b > 0 {
        lemma_pow10_increases((a - 1) as nat, (b - 1) as nat);
    }
}

/// The value of `n` digits is below ten to the `n`.
proof fn lemma_digits_val_bound(s: Seq<u8>, i: int, j: int)
    requires
        0 <= i <= j <= s.len(),
        forall|m: int| i <= m < j ==> is_digit(#[trigger] s[m]),
    ensures
        0 <= digits_val(s, i, j) < pow10((j - i) as nat),
    decreases j - i,
{
    if j > i {
        lemma_digits_val_bound(s, i, j - 1);
    }
}

/// Ten to the eighteenth, spelled out.
proof fn lemma_pow10_18()
    ensures
        pow10(18) == 0x0de0_b6b3_a764_0000,
{
    reveal_with_fuel(pow10, 19);
}

/// Reads a text literal at `i`.
fn parse_text_exec(s: &[u8], i: usize) -> (r: Result<(Vec<u8>, usize), usize>)
    requires
        i <= s@.len(),
    ensures
        match r {
            Ok(p) => parse_text(s@, i as int) == Result::<(Seq<u8>, int), int>::Ok(
                (p.0@, p.1 as int),
            ),
            Err(e) => parse_text(s@, i as int) == Result::<(Seq<u8>, int), int>::Err(e as int),
        },
{
    if !(i < s.len() && s[i] == 34) {
        return Err(i);
    }
    let j = scan_text_exec(s, i + 1);
    if j >= s.len() {
        return Err(i);
    }
    let content = copy_range(s, i + 1, j);
    Ok((content, j + 1))
}

/// Reads an argument at `i`.
fn parse_arg_exec(s: &[u8], i: usize) -> (r: Result<(Arg, usize), usize>)
    requires
        i <= s@.len(),
    ensures
        match r {
            Ok(p) => parse_arg(s@, i as int) == Result::<(ArgModel, int), int>::Ok(
                (p.0@, p.1 as int),
            ),
            Err(e) => parse_arg(s@, i as int) == Result::<(ArgModel, int), int>::Err(e as int),
        },
{
    if i < s.len() && s[i] == 34 {
        match parse_text_exec(s, i) {
            Ok(p) => Ok((Arg::Text(p.0), p.1)),
            Err(e) => Err(e),
        }
    } else {
        match parse_int_exec(s, i) {
            Ok(p) => Ok((Arg::Int(p.0), p.1)),
            Err(e) => Err(e),
        }
    }
}

/// Reads the rest of an argument list, beginning at an argument.
fn parse_args_rest_exec(s: &[u8], i: usize) -> (r: Result<(Vec<Arg>, usize), usize>)
    requires
        i <= s@.len(),
    ensures
        match r {
            Ok(p) => parse_args_rest(s@, i as int) == Result::<(Seq<ArgModel>, int), int>::Ok(
                (p.0@.map_values(|a: Arg| a@), p.1 as int),
            ),
            Err(e) => parse_args_rest(s@, i as int) == Result::<(Seq<ArgModel>, int), int>::Err(
                e as int,
            ),
        },
    decreases s@.len() - i,
{
    match parse_arg_exec(s, i) {
        Err(e) => Err(e),
        Ok((a, j)) => {
            proof {
                lemma_parse_arg_advances(s@, i as int);
            }
            let j1 = skip_ws_exec(s, j);
            if j1 < s.len() && s[j1] == 41 {
                let ghost ga = a@;
                let mut v: Vec<Arg> = Vec::new();
                v.push(a);
                proof {
                    assert(v@.map_values(|x: Arg| x@) =~= seq![ga]);
                }
                Ok((v, j1 + 1))
            } else if j1 < s.len() && s[j1] == 44 {
                let j2 = skip_ws_exec(s, j1 + 1);
                match parse_args_rest_exec(s, j2) {
                    Ok((mut rest, k)) => {
                        let ghost ga = a@;
                        let ghost grest = rest@.map_values(|x: Arg| x@);
                        rest.insert(0, a);
                        proof {
                            assert(rest@.map_values(|x: Arg| x@) =~= seq![ga] + grest);
                        }
                        Ok((rest, k))
                    },
                    Err(e) => Err(e),
                }
            } else {
                Err(j1)
            }
        },
    }
}

/// Reads a call at `i`.
fn parse_call_exec(s: &[u8], i: usize) -> (r: Result<(Call, usize), usize>)
    requires
        i <= s@.len(),
    ensures
        match r {
            Ok(p) => parse_call(s@, i as int) == Result::<(CallModel, int), int>::Ok(
                (p.0@, p.1 as int),
            ),
            Err(e) => parse_call(s@, i as int) == Result::<(CallModel, int), int>::Err(e as int),
        },
{
    let j = scan_name_exec(s, i);
    if j == i {
        return Err(i);
    }
    let name = copy_range(s, i, j);
    let j1 = skip_ws_exec(s, j);
    if j1 < s.len() && s[j1] == 40 {
        let j2 = skip_ws_exec(s, j1 + 1);
        if j2 < s.len() && s[j2] == 41 {
            let call = Call { name, args: Vec::new() };
            proof {
                assert(call@.args =~= Seq::<ArgModel>::empty());
                assert(call@ =~= parse_call(s@, i as int)->Ok_0.0);
            }
            Ok((call, j2 + 1))
        } else {
            match parse_args_rest_exec(s, j2) {
                Ok((args, k)) => {
                    let call = Call { name, args };
                    proof {
                        assert(call@ =~= parse_call(s@, i as int)->Ok_0.0);
                    }
                    Ok((call, k))
                },
                Err(e) => Err(e),
            }
        }
    } else {
        Err(j1)
    }
}

/// Reads the statements from `i` to the end of the script.
fn parse_stmts_exec(s: &[u8], i: usize) -> (r: Result<(Vec<Call>, usize), usize>)
    requires
        i <= s@.len(),
    ensures
        match r {
            Ok(p) => parse_stmts(s@, i as int) == Result::<Seq<CallModel>, int>::Ok(
                p.0@.map_values(|c: Call| c@),
            ),
            Err(e) => parse_stmts(s@, i as int) == Result::<Seq<CallModel>, int>::Err(e as int),
        },
    decreases s@.len() - i,
{
    let j = skip_ws_exec(s, i);
    if j >= s.len() {
        let v: Vec<Call> = Vec::new();
        proof {
            assert(v@.map_values(|c: Call| c@) =~= Seq::<CallModel>::empty());
        }
        return Ok((v, j));
    }
    if s[j] == 59 {
        return parse_stmts_exec(s, j + 1);
    }
    match parse_call_exec(s, j) {
        Err(e) => Err(e),
        Ok((call, k)) => {
            proof {
                lemma_parse_call_advances(s@, j as int);
            }
            let k1 = skip_ws_exec(s, k);
            if k1 >= s.len() {
                let ghost gc = call@;
                let mut v: Vec<Call> = Vec::new();
                v.push(call);
                proof {
                    assert(v@.map_values(|c: Call| c@) =~= seq![gc]);
                }
                Ok((v, k1))
            } else if s[k1] == 59 {
                match parse_stmts_exec(s, k1 + 1) {
                    Ok((mut rest, _end)) => {
                        let ghost gc = call@;
                        let ghost grest = rest@.map_values(|c: Call| c@);
                        rest.insert(0, call);
                        proof {
                            assert(rest@.map_values(|c: Call| c@) =~= seq![gc] + grest);
                        }
                        Ok((rest, k1))
                    },
                    Err(e) => Err(e),
                }
            } else {
                Err(k1)
            }
        },
    }
}

/// Parses a whole script into its statements, or reports the byte offset
/// at which the text stops following the grammar.
pub fn parse_script_exec(s: &[u8]) -> (r: Result<Vec<Call>, usize>)
    ensures
        match r {
            Ok(v) => parse_script(s@) == Result::<Seq<CallModel>, int>::Ok(
                v@.map_values(|c: Call| c@),
            ),
            Err(e) => parse_script(s@) == Result::<Seq<CallModel>, int>::Err(e as int),
        },
{
    match parse_stmts_exec(s, 0) {
        Ok(p) => Ok(p.0),
        Err(e) => Err(e),
    }
}

} // verus!
