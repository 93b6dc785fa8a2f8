//! Small helpers shared by the pipeline: the density of a variant, decimal
//! formatting, and the exact text of the two per-page label strips.

use vstd::prelude::*;

use crate::Variant;

verus! {

impl Variant {
    /// Data density d: the number of independently encoded 512-byte
    /// sub-slices multiplexed into one visual symbol.
    pub fn data_density(&self) -> (d: usize)
        ensures
            d == self.density(),
    {
        match self {
            Variant::QRCode => 1,
            Variant::Color4 => 2,
            Variant::Color8 => 3,
        }
    }
}

/// Relies on String::push: appends the one character to the string.
#[verifier::external_body]
pub(crate) fn push_char(s: &mut String, c: char)
    ensures
        final(s)@ == old(s)@ + seq![c],
{
    s.push(c);
}

/// Relies on String::push_str: appends the characters of `t` to the string.
#[verifier::external_body]
pub(crate) fn push_str(s: &mut String, t: &str)
    ensures
        final(s)@ == old(s)@ + t@,
{
    s.push_str(t);
}

/// The decimal digit character for `d`.
pub open spec fn digit_char(d: int) -> char {
    if d == 0 {
        '0'
    } else if d == 1 {
        '1'
    } else if d == 2 {
        '2'
    } else if d == 3 {
        '3'
    } else if d == 4 {
        '4'
    } else if d == 5 {
        '5'
    } else if d == 6 {
        '6'
    } else if d == 7 {
        '7'
    } else if d == 8 {
        '8'
    } else {
        '9'
    }
}

/// The decimal digit character for `d`.
fn digit_to_char(d: usize) -> (c: char)
    requires
        d < 10,
    ensures
        c == digit_char(d as int),
{
    match d {
        0 => '0',
        1 => '1',
        2 => '2',
        3 => '3',
        4 => '4',
        5 => '5',
        6 => '6',
        7 => '7',
        8 => '8',
        _ => '9',
    }
}

/// The decimal digits of `n`, most significant first, without leading
/// zeros (a single `0` for zero).
pub open spec fn dec_digits(n: nat) -> Seq<char>
    decreases n,
{
    if n < 10 {
        seq![digit_char(n as int)]
    } else {
        dec_digits(n / 10).push(digit_char((n % 10) as int))
    }
}

/// The decimal digits of `n`, left-padded with `0` to at least `w`
/// characters; a number with `w` or more digits is not truncated.
pub open spec fn dec_padded(n: nat, w: nat) -> Seq<char> {
    if dec_digits(n).len() >= w {
        dec_digits(n)
    } else {
        Seq::new((w - dec_digits(n).len()) as nat, |i: int| '0') + dec_digits(n)
    }
}

/// The width that remains for the leading digits once one digit is written.
pub open spec fn width_less_one(w: nat) -> nat {
    if w == 0 {
        0
    } else {
        (w - 1) as nat
    }
}

/// Padding a number with at least two digits is padding its leading digits
/// one narrower and appending its last digit.
proof fn lemma_dec_padded_step(n: nat, w: nat)
    requires
        n >= 10,
    ensures
        dec_padded(n, w) == dec_padded(n / 10, width_less_one(w)) + seq![
            digit_char((n % 10) as int),
        ],
{
    let d = digit_char((n % 10) as int);
    assert(dec_digits(n) == dec_digits(n / 10).push(d));
    assert(dec_digits(n).len() == dec_digits(n / 10).len() + 1);
    if dec_digits(n).len() >= w {
        assert(dec_padded(n, w) =~= dec_padded(n / 10, width_less_one(w)) + seq![d]);
    } else {
        assert(Seq::new((w - dec_digits(n).len()) as nat, |i: int| '0') == Seq::new(
            (width_less_one(w) - dec_digits(n / 10).len()) as nat,
            |i: int| '0',
        ));
        assert(dec_padded(n, w) =~= dec_padded(n / 10, width_less_one(w)) + seq![d]);
    }
}

/// Appends the decimal digits of `n`, left-padded with `0` to at least
/// `width` characters.
pub(crate) fn push_padded(s: &mut String, n: usize, width: usize)
    ensures
        final(s)@ == old(s)@ + dec_padded(n as nat, width as nat),
    decreases n,
{
    if n < 10 {
        let mut k: usize = 1;
        while k < width
            invariant
                1 <= k,
                k <= width || k == 1,
                s@ == old(s)@ + Seq::new((k - 1) as nat, |i: int| '0'),
            decreases width - k,
        {
            push_char(s, '0');
            proof {
                assert(s@ =~= old(s)@ + Seq::new(k as nat, |i: int| '0'));
            }
            k = k + 1;
        }
        push_char(s, digit_to_char(n));
        proof {
            assert(n as nat % 10 == n as nat) by (nonlinear_arith)
                requires
                    n < 10,
            ;
            assert(s@ =~= old(s)@ + dec_padded(n as nat, width as nat));
        }
    } else {
        proof {
            vstd::arithmetic::div_mod::lemma_div_is_strictly_smaller(n as int, 10);
            vstd::arithmetic::div_mod::lemma_mod_bound(n as int, 10);
        }
        let w2: usize = if width > 0 {
            width - 1
        } else {
            0
        };
        push_padded(s, n / 10, w2);
        push_char(s, digit_to_char(n % 10));
        proof {
            lemma_dec_padded_step(n as nat, width as nat);
            assert(s@ =~= old(s)@ + dec_padded(n as nat, width as nat));
        }
    }
}

/// The exact text of label strip 1: `PAGE `, the 1-based page index padded
/// to three digits, `/`, the page count padded to three digits, a space,
/// and the content hash.
pub open spec fn page_label_spec(page: nat, total: nat, hash: Seq<char>) -> Seq<char> {
    seq!['P', 'A', 'G', 'E', ' '] + dec_padded(page, 3) + seq!['/'] + dec_padded(total, 3) + seq![
        ' ',
    ] + hash
}

/// The exact text of label strip 2: the timestamp, a space, and the
/// free-text message.
pub open spec fn msg_label_spec(time: Seq<char>, message: Seq<char>) -> Seq<char> {
    time + seq![' '] + message
}

/// Builds the text of label strip 1 for one page.
pub fn page_label_text(page: usize, total: usize, hash: &str) -> (r: String)
    ensures
        r@ == page_label_spec(page as nat, total as nat, hash@),
{
    let mut s = String::new();
    push_char(&mut s, 'P');
    push_char(&mut s, 'A');
    push_char(&mut s, 'G');
    push_char(&mut s, 'E');
    push_char(&mut s, ' ');
    push_padded(&mut s, page, 3);
    push_char(&mut s, '/');
    push_padded(&mut s, total, 3);
    push_char(&mut s, ' ');
    push_str(&mut s, hash);
    proof {
        assert(s@ =~= page_label_spec(page as nat, total as nat, hash@));
    }
    s
}

/// Builds the text of label strip 2 for one page.
pub fn message_label_text(time: &str, message: &str) -> (r: String)
    ensures
        r@ == msg_label_spec(time@, message@),
{
    let mut s = String::new();
    push_str(&mut s, time);
    push_char(&mut s, ' ');
    push_str(&mut s, message);
    proof {
        assert(s@ =~= msg_label_spec(time@, message@));
    }
    s
}

/// The lowercase hexadecimal digest of the whole input, as the external
/// hash computes it: a pure function of the bytes, 64 characters long.
pub uninterp spec fn sha256_hex_of(data: Seq<u8>) -> Seq<char>;

/// Relies on sha2's Sha256 together with lowercase-hex formatting: the
/// digest is deterministic in the input bytes and prints as 64 hex
/// characters.
#[verifier::external_body]
fn sha256_hex(data: &Vec<u8>) -> (r: String)
    ensures
        r@ == sha256_hex_of(data@),
        r@.len() == 64,
{
    let mut h: sha2::Sha256 = sha2::Digest::new();
    sha2::Digest::update(&mut h, data.as_slice());
    format!("{:x}", sha2::Digest::finalize(h))
}

/// Builds the two label strip texts of every page of the document: strip 1
/// carries the 1-based page index, the page count and the hex digest of the
/// whole input, stamped for operator verification; strip 2 carries the
/// timestamp and the free-text message, identical on every page.
pub fn document_labels(data: &Vec<u8>, n_pages: usize, time: &str, message: &str) -> (r: Vec<
    (String, String),
>)
    ensures
        r@.len() == n_pages,
        forall|p: int|
            0 <= p < n_pages ==> (#[trigger] r@[p]).0@ == page_label_spec(
                (p + 1) as nat,
                n_pages as nat,
                sha256_hex_of(data@),
            ) && r@[p].1@ == msg_label_spec(time@, message@),
{
    let hash = sha256_hex(data);
    let mut r: Vec<(String, String)> = Vec::new();
    let mut p: usize = 0;
    while p < n_pages
        invariant
            hash@ == sha256_hex_of(data@),
            r@.len() == p,
            p <= n_pages,
            forall|j: int|
                0 <= j < p ==> (#[trigger] r@[j]).0@ == page_label_spec(
                    (j + 1) as nat,
                    n_pages as nat,
                    sha256_hex_of(data@),
                ) && r@[j].1@ == msg_label_spec(time@, message@),
        decreases n_pages - p,
    {
        let info = page_label_text(p + 1, n_pages, hash.as_str());
        let msg = message_label_text(time, message);
        r.push((info, msg));
        p = p + 1;
    }
    r
}

} // verus!
