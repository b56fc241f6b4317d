//! The training configuration: the hyperparameters resolved once at start,
//! and their persistence format.
//!
//! The learning rate and the optimizer's moment-decay settings are machine
//! floating-point values, which this crate never computes with: each is held
//! and persisted as the integer bit pattern of its IEEE-754 representation
//! (64-bit for the learning rate, 32-bit for the optimizer settings), and the
//! boundary outside this crate turns bits into values. The persistence format
//! is a single JSON object with every field a decimal integer.

use vstd::prelude::*;

verus! {

use crate::decimal::dec_of;
use crate::decimal::dec_val;
use crate::decimal::u64_to_dec;
use crate::decimal::parse_u64_at;
use crate::decimal::lemma_dec_of_digits;
use crate::decimal::lemma_dec_round_trip;
use crate::decimal::lemma_digit_run_exact;
use crate::numeric::is_digit;
use crate::numeric::digit_run_len;
use crate::push_bytes;
use crate::bytes_eq;

/// Optimizer settings of the gradient-descent optimizer, each the bit pattern
/// of a 32-bit IEEE-754 value.
#[derive(Debug, Clone, Copy, PartialEq, Eq, Structural)]
pub struct AdamSettings {
    pub beta_1_bits: u32,
    pub beta_2_bits: u32,
    pub epsilon_bits: u32,
}

/// Bit pattern of the 32-bit value 0.9.
pub const BETA_1_DEFAULT_BITS: u32 = 0x3F66_6666;

/// Bit pattern of the 32-bit value 0.999.
pub const BETA_2_DEFAULT_BITS: u32 = 0x3F7F_BE77;

/// Bit pattern of the 32-bit value 1e-5.
pub const EPSILON_DEFAULT_BITS: u32 = 0x3727_C5AC;

/// Bit pattern of the 64-bit value 1e-4.
pub const LEARNING_RATE_DEFAULT_BITS: u64 = 0x3F1A_36E2_EB1C_432D;

impl AdamSettings {
    /// The optimizer's defaults: first moment decay 0.9, second moment decay
    /// 0.999, epsilon 1e-5.
    pub fn new() -> (s: AdamSettings)
        ensures
            s == (AdamSettings {
                beta_1_bits: BETA_1_DEFAULT_BITS,
                beta_2_bits: BETA_2_DEFAULT_BITS,
                epsilon_bits: EPSILON_DEFAULT_BITS,
            }),
    {
        AdamSettings {
            beta_1_bits: BETA_1_DEFAULT_BITS,
            beta_2_bits: BETA_2_DEFAULT_BITS,
            epsilon_bits: EPSILON_DEFAULT_BITS,
        }
    }
}

/// The immutable record of hyperparameters resolved once at start.
#[derive(Debug, Clone, Copy, PartialEq, Eq, Structural)]
pub struct TrainingConfig {
    pub optimizer: AdamSettings,
    pub num_epochs: usize,
    pub batch_size: usize,
    pub num_workers: usize,
    pub seed: u64,
    /// Bit pattern of the 64-bit learning-rate value.
    pub learning_rate_bits: u64,
}

impl TrainingConfig {
    /// A configuration with the given optimizer settings and the defaults:
    /// 20 epochs, batch size 2, 4 workers, seed 42, learning rate 1e-4.
    pub fn new(optimizer: AdamSettings) -> (c: TrainingConfig)
        ensures
            c == (TrainingConfig {
                optimizer,
                num_epochs: 20,
                batch_size: 2,
                num_workers: 4,
                seed: 42,
                learning_rate_bits: LEARNING_RATE_DEFAULT_BITS,
            }),
    {
        TrainingConfig {
            optimizer,
            num_epochs: 20,
            batch_size: 2,
            num_workers: 4,
            seed: 42,
            learning_rate_bits: LEARNING_RATE_DEFAULT_BITS,
        }
    }
}

/// The bytes of `{"optimizer":{"beta_1_bits":`.
#[verifier::opaque]
pub open spec fn key_beta_1() -> Seq<u8> {
    seq!['{' as u8, '"' as u8, 'o' as u8, 'p' as u8, 't' as u8, 'i' as u8, 'm' as u8, 'i' as u8, 'z' as u8, 'e' as u8, 'r' as u8, '"' as u8, ':' as u8, '{' as u8, '"' as u8, 'b' as u8, 'e' as u8, 't' as u8, 'a' as u8, '_' as u8, '1' as u8, '_' as u8, 'b' as u8, 'i' as u8, 't' as u8, 's' as u8, '"' as u8, ':' as u8]
}

fn key_beta_1_lit() -> (v: Vec<u8>)
    ensures
        v@ == key_beta_1(),
{
    let v: Vec<u8> = vec!['{' as u8, '"' as u8, 'o' as u8, 'p' as u8, 't' as u8, 'i' as u8, 'm' as u8, 'i' as u8, 'z' as u8, 'e' as u8, 'r' as u8, '"' as u8, ':' as u8, '{' as u8, '"' as u8, 'b' as u8, 'e' as u8, 't' as u8, 'a' as u8, '_' as u8, '1' as u8, '_' as u8, 'b' as u8, 'i' as u8, 't' as u8, 's' as u8, '"' as u8, ':' as u8];
    proof {
        reveal(key_beta_1);
        assert(v@ =~= key_beta_1());
    }
    v
}

/// The bytes of `,"beta_2_bits":`.
#[verifier::opaque]
pub open spec fn key_beta_2() -> Seq<u8> {
    seq![',' as u8, '"' as u8, 'b' as u8, 'e' as u8, 't' as u8, 'a' as u8, '_' as u8, '2' as u8, '_' as u8, 'b' as u8, 'i' as u8, 't' as u8, 's' as u8, '"' as u8, ':' as u8]
}

fn key_beta_2_lit() -> (v: Vec<u8>)
    ensures
        v@ == key_beta_2(),
{
    let v: Vec<u8> = vec![',' as u8, '"' as u8, 'b' as u8, 'e' as u8, 't' as u8, 'a' as u8, '_' as u8, '2' as u8, '_' as u8, 'b' as u8, 'i' as u8, 't' as u8, 's' as u8, '"' as u8, ':' as u8];
    proof {
        reveal(key_beta_2);
        assert(v@ =~= key_beta_2());
    }
    v
}

/// The bytes of `,"epsilon_bits":`.
#[verifier::opaque]
pub open spec fn key_epsilon() -> Seq<u8> {
    seq![',' as u8, '"' as u8, 'e' as u8, 'p' as u8, 's' as u8, 'i' as u8, 'l' as u8, 'o' as u8, 'n' as u8, '_' as u8, 'b' as u8, 'i' as u8, 't' as u8, 's' as u8, '"' as u8, ':' as u8]
}

fn key_epsilon_lit() -> (v: Vec<u8>)
    ensures
        v@ == key_epsilon(),
{
    let v: Vec<u8> = vec![',' as u8, '"' as u8, 'e' as u8, 'p' as u8, 's' as u8, 'i' as u8, 'l' as u8, 'o' as u8, 'n' as u8, '_' as u8, 'b' as u8, 'i' as u8, 't' as u8, 's' as u8, '"' as u8, ':' as u8];
    proof {
        reveal(key_epsilon);
        assert(v@ =~= key_epsilon());
    }
    v
}

/// The bytes of `},"num_epochs":`.
#[verifier::opaque]
pub open spec fn key_num_epochs() -> Seq<u8> {
    seq!['}' as u8, ',' as u8, '"' as u8, 'n' as u8, 'u' as u8, 'm' as u8, '_' as u8, 'e' as u8, 'p' as u8, 'o' as u8, 'c' as u8, 'h' as u8, 's' as u8, '"' as u8, ':' as u8]
}

fn key_num_epochs_lit() -> (v: Vec<u8>)
    ensures
        v@ == key_num_epochs(),
{
    let v: Vec<u8> = vec!['}' as u8, ',' as u8, '"' as u8, 'n' as u8, 'u' as u8, 'm' as u8, '_' as u8, 'e' as u8, 'p' as u8, 'o' as u8, 'c' as u8, 'h' as u8, 's' as u8, '"' as u8, ':' as u8];
    proof {
        reveal(key_num_epochs);
        assert(v@ =~= key_num_epochs());
    }
    v
}

/// The bytes of `,"batch_size":`.
#[verifier::opaque]
pub open spec fn key_batch_size() -> Seq<u8> {
    seq![',' as u8, '"' as u8, 'b' as u8, 'a' as u8, 't' as u8, 'c' as u8, 'h' as u8, '_' as u8, 's' as u8, 'i' as u8, 'z' as u8, 'e' as u8, '"' as u8, ':' as u8]
}

fn key_batch_size_lit() -> (v: Vec<u8>)
    ensures
        v@ == key_batch_size(),
{
    let v: Vec<u8> = vec![',' as u8, '"' as u8, 'b' as u8, 'a' as u8, 't' as u8, 'c' as u8, 'h' as u8, '_' as u8, 's' as u8, 'i' as u8, 'z' as u8, 'e' as u8, '"' as u8, ':' as u8];
    proof {
        reveal(key_batch_size);
        assert(v@ =~= key_batch_size());
    }
    v
}

/// The bytes of `,"num_workers":`.
#[verifier::opaque]
pub open spec fn key_num_workers() -> Seq<u8> {
    seq![',' as u8, '"' as u8, 'n' as u8, 'u' as u8, 'm' as u8, '_' as u8, 'w' as u8, 'o' as u8, 'r' as u8, 'k' as u8, 'e' as u8, 'r' as u8, 's' as u8, '"' as u8, ':' as u8]
}

fn key_num_workers_lit() -> (v: Vec<u8>)
    ensures
        v@ == key_num_workers(),
{
    let v: Vec<u8> = vec![',' as u8, '"' as u8, 'n' as u8, 'u' as u8, 'm' as u8, '_' as u8, 'w' as u8, 'o' as u8, 'r' as u8, 'k' as u8, 'e' as u8, 'r' as u8, 's' as u8, '"' as u8, ':' as u8];
    proof {
        reveal(key_num_workers);
        assert(v@ =~= key_num_workers());
    }
    v
}

/// The bytes of `,"seed":`.
#[verifier::opaque]
pub open spec fn key_seed() -> Seq<u8> {
    seq![',' as u8, '"' as u8, 's' as u8, 'e' as u8, 'e' as u8, 'd' as u8, '"' as u8, ':' as u8]
}

fn key_seed_lit() -> (v: Vec<u8>)
    ensures
        v@ == key_seed(),
{
    let v: Vec<u8> = vec![',' as u8, '"' as u8, 's' as u8, 'e' as u8, 'e' as u8, 'd' as u8, '"' as u8, ':' as u8];
    proof {
        reveal(key_seed);
        assert(v@ =~= key_seed());
    }
    v
}

/// The bytes of `,"learning_rate_bits":`.
#[verifier::opaque]
pub open spec fn key_learning_rate() -> Seq<u8> {
    seq![',' as u8, '"' as u8, 'l' as u8, 'e' as u8, 'a' as u8, 'r' as u8, 'n' as u8, 'i' as u8, 'n' as u8, 'g' as u8, '_' as u8, 'r' as u8, 'a' as u8, 't' as u8, 'e' as u8, '_' as u8, 'b' as u8, 'i' as u8, 't' as u8, 's' as u8, '"' as u8, ':' as u8]
}

fn key_learning_rate_lit() -> (v: Vec<u8>)
    ensures
        v@ == key_learning_rate(),
{
    let v: Vec<u8> = vec![',' as u8, '"' as u8, 'l' as u8, 'e' as u8, 'a' as u8, 'r' as u8, 'n' as u8, 'i' as u8, 'n' as u8, 'g' as u8, '_' as u8, 'r' as u8, 'a' as u8, 't' as u8, 'e' as u8, '_' as u8, 'b' as u8, 'i' as u8, 't' as u8, 's' as u8, '"' as u8, ':' as u8];
    proof {
        reveal(key_learning_rate);
        assert(v@ =~= key_learning_rate());
    }
    v
}

/// The bytes of `}`.
#[verifier::opaque]
pub open spec fn key_close() -> Seq<u8> {
    seq!['}' as u8]
}

fn key_close_lit() -> (v: Vec<u8>)
    ensures
        v@ == key_close(),
{
    let v: Vec<u8> = vec!['}' as u8];
    proof {
        reveal(key_close);
        assert(v@ =~= key_close());
    }
    v
}

/// The serialized text from the first moment decay on.
pub open spec fn json_from_beta_1(c: TrainingConfig) -> Seq<u8> {
    dec_of(c.optimizer.beta_1_bits as nat) + (key_beta_2() + json_from_beta_2(c))
}

/// ... from the second moment decay on.
pub open spec fn json_from_beta_2(c: TrainingConfig) -> Seq<u8> {
    dec_of(c.optimizer.beta_2_bits as nat) + (key_epsilon() + json_from_epsilon(c))
}

/// ... from epsilon on.
pub open spec fn json_from_epsilon(c: TrainingConfig) -> Seq<u8> {
    dec_of(c.optimizer.epsilon_bits as nat) + (key_num_epochs() + json_from_num_epochs(c))
}

/// ... from the epoch count on.
pub open spec fn json_from_num_epochs(c: TrainingConfig) -> Seq<u8> {
    dec_of(c.num_epochs as nat) + (key_batch_size() + json_from_batch_size(c))
}

/// ... from the batch size on.
pub open spec fn json_from_batch_size(c: TrainingConfig) -> Seq<u8> {
    dec_of(c.batch_size as nat) + (key_num_workers() + json_from_num_workers(c))
}

/// ... from the worker count on.
pub open spec fn json_from_num_workers(c: TrainingConfig) -> Seq<u8> {
    dec_of(c.num_workers as nat) + (key_seed() + json_from_seed(c))
}

/// ... from the seed on.
pub open spec fn json_from_seed(c: TrainingConfig) -> Seq<u8> {
    dec_of(c.seed as nat) + (key_learning_rate() + json_from_learning_rate(c))
}

/// ... from the learning rate on.
pub open spec fn json_from_learning_rate(c: TrainingConfig) -> Seq<u8> {
    dec_of(c.learning_rate_bits as nat) + key_close()
}

/// The serialized form of a configuration: one JSON object, every field a
/// decimal integer.
pub open spec fn spec_json(c: TrainingConfig) -> Seq<u8> {
    key_beta_1() + json_from_beta_1(c)
}

/// The configuration a byte string deserializes to: the one that serializes
/// to it, if any.
pub open spec fn json_to_config(s: Seq<u8>) -> Option<TrainingConfig> {
    if exists|c: TrainingConfig| s == spec_json(c) {
        Some(choose|c: TrainingConfig| s == spec_json(c))
    } else {
        None
    }
}


/// Each key is non-empty and begins with a byte that is not a digit.
proof fn lemma_key_facts()
    ensures
        key_beta_1().len() > 0 && !is_digit(key_beta_1()[0]),
        key_beta_2().len() > 0 && !is_digit(key_beta_2()[0]),
        key_epsilon().len() > 0 && !is_digit(key_epsilon()[0]),
        key_num_epochs().len() > 0 && !is_digit(key_num_epochs()[0]),
        key_batch_size().len() > 0 && !is_digit(key_batch_size()[0]),
        key_num_workers().len() > 0 && !is_digit(key_num_workers()[0]),
        key_seed().len() > 0 && !is_digit(key_seed()[0]),
        key_learning_rate().len() > 0 && !is_digit(key_learning_rate()[0]),
        key_close().len() > 0 && !is_digit(key_close()[0]),
{
    reveal(key_beta_1);
    reveal(key_beta_2);
    reveal(key_epsilon);
    reveal(key_num_epochs);
    reveal(key_batch_size);
    reveal(key_num_workers);
    reveal(key_seed);
    reveal(key_learning_rate);
    reveal(key_close);
}

/// A literal that stands at `pos` in `s` is the subrange there, and what
/// follows it is the rest.
proof fn lemma_lit_at(s: Seq<u8>, pos: int, lit: Seq<u8>, rest: Seq<u8>)
    requires
        0 <= pos <= s.len(),
        s.skip(pos) == lit + rest,
    ensures
        pos + lit.len() <= s.len(),
        s.subrange(pos, pos + lit.len()) == lit,
        s.skip(pos + lit.len()) == rest,
{
    assert(s.skip(pos).len() == s.len() - pos);
    assert forall|k: int| 0 <= k < lit.len() implies s.subrange(pos, pos + lit.len())[k] == lit[k] by {
        assert(s.subrange(pos, pos + lit.len())[k] == s[pos + k]);
        assert(s[pos + k] == s.skip(pos)[k]);
    }
    assert(s.subrange(pos, pos + lit.len()) =~= lit);
    assert forall|k: int| 0 <= k < rest.len() implies s.skip(pos + lit.len())[k] == rest[k] by {
        assert(s.skip(pos + lit.len())[k] == s[pos + lit.len() + k]);
        assert(s[pos + lit.len() + k] == s.skip(pos)[lit.len() + k]);
    }
    assert(s.skip(pos + lit.len()) =~= rest);
}

/// A decimal number that stands at `pos` in `s`, followed by a rest that does
/// not begin with a digit, is the digit run there, and its value is the number.
proof fn lemma_number_at(s: Seq<u8>, pos: int, f: nat, rest: Seq<u8>)
    requires
        0 <= pos <= s.len(),
        s.skip(pos) == dec_of(f) + rest,
        rest.len() > 0,
        !is_digit(rest[0]),
    ensures
        digit_run_len(s, pos) == dec_of(f).len(),
        pos + dec_of(f).len() < s.len(),
        s.subrange(pos, pos + dec_of(f).len()) == dec_of(f),
        dec_val(s.subrange(pos, pos + dec_of(f).len())) == f,
        s.skip(pos + dec_of(f).len()) == rest,
{
    lemma_dec_of_digits(f);
    lemma_dec_round_trip(f);
    let m = dec_of(f).len() as int;
    assert(s.skip(pos).len() == s.len() - pos);
    assert forall|k: int| pos <= k < pos + m implies is_digit(#[trigger] s[k]) by {
        assert(s[k] == s.skip(pos)[k - pos]);
        assert(s.skip(pos)[k - pos] == dec_of(f)[k - pos]);
    }
    assert(s[pos + m] == s.skip(pos)[m]);
    assert(s.skip(pos)[m] == rest[0]);
    lemma_digit_run_exact(s, pos, m);
    assert forall|k: int| 0 <= k < m implies s.subrange(pos, pos + m)[k] == dec_of(f)[k] by {
        assert(s.subrange(pos, pos + m)[k] == s[pos + k]);
        assert(s[pos + k] == s.skip(pos)[k]);
    }
    assert(s.subrange(pos, pos + m) =~= dec_of(f));
    assert forall|k: int| 0 <= k < rest.len() implies s.skip(pos + m)[k] == rest[k] by {
        assert(s.skip(pos + m)[k] == s[pos + m + k]);
        assert(s[pos + m + k] == s.skip(pos)[m + k]);
    }
    assert(s.skip(pos + m) =~= rest);
}

/// Two decimal numbers with non-digit rests that spell the same string are
/// the same number with the same rest.
proof fn lemma_unique_field(s: Seq<u8>, x: nat, rx: Seq<u8>, y: nat, ry: Seq<u8>)
    requires
        s == dec_of(x) + rx,
        s == dec_of(y) + ry,
        rx.len() > 0,
        !is_digit(rx[0]),
        ry.len() > 0,
        !is_digit(ry[0]),
    ensures
        x == y,
        rx == ry,
{
    assert(s.skip(0) =~= s);
    lemma_number_at(s, 0, x, rx);
    lemma_number_at(s, 0, y, ry);
    assert(dec_of(x).len() == dec_of(y).len());
}

/// Serialization is injective: two configurations with the same serialized
/// form are equal.
proof fn lemma_spec_json_injective(a: TrainingConfig, b: TrainingConfig)
    requires
        spec_json(a) == spec_json(b),
    ensures
        a == b,
{
    lemma_key_facts();
    let sa = spec_json(a);
    assert(sa.skip(key_beta_1().len() as int) =~= json_from_beta_1(a));
    assert(sa.skip(key_beta_1().len() as int) =~= json_from_beta_1(b));
    lemma_unique_field(
        json_from_beta_1(a),
        a.optimizer.beta_1_bits as nat,
        key_beta_2() + json_from_beta_2(a),
        b.optimizer.beta_1_bits as nat,
        key_beta_2() + json_from_beta_2(b),
    );
    let s2 = key_beta_2() + json_from_beta_2(a);
    assert(s2.skip(key_beta_2().len() as int) =~= json_from_beta_2(a));
    assert((key_beta_2() + json_from_beta_2(b)).skip(key_beta_2().len() as int) =~= json_from_beta_2(
        b,
    ));
    lemma_unique_field(
        json_from_beta_2(a),
        a.optimizer.beta_2_bits as nat,
        key_epsilon() + json_from_epsilon(a),
        b.optimizer.beta_2_bits as nat,
        key_epsilon() + json_from_epsilon(b),
    );
    let s3 = key_epsilon() + json_from_epsilon(a);
    assert(s3.skip(key_epsilon().len() as int) =~= json_from_epsilon(a));
    assert((key_epsilon() + json_from_epsilon(b)).skip(key_epsilon().len() as int)
        =~= json_from_epsilon(b));
    lemma_unique_field(
        json_from_epsilon(a),
        a.optimizer.epsilon_bits as nat,
        key_num_epochs() + json_from_num_epochs(a),
        b.optimizer.epsilon_bits as nat,
        key_num_epochs() + json_from_num_epochs(b),
    );
    let s4 = key_num_epochs() + json_from_num_epochs(a);
    assert(s4.skip(key_num_epochs().len() as int) =~= json_from_num_epochs(a));
    assert((key_num_epochs() + json_from_num_epochs(b)).skip(key_num_epochs().len() as int)
        =~= json_from_num_epochs(b));
    lemma_unique_field(
        json_from_num_epochs(a),
        a.num_epochs as nat,
        key_batch_size() + json_from_batch_size(a),
        b.num_epochs as nat,
        key_batch_size() + json_from_batch_size(b),
    );
    let s5 = key_batch_size() + json_from_batch_size(a);
    assert(s5.skip(key_batch_size().len() as int) =~= json_from_batch_size(a));
    assert((key_batch_size() + json_from_batch_size(b)).skip(key_batch_size().len() as int)
        =~= json_from_batch_size(b));
    lemma_unique_field(
        json_from_batch_size(a),
        a.batch_size as nat,
        key_num_workers() + json_from_num_workers(a),
        b.batch_size as nat,
        key_num_workers() + json_from_num_workers(b),
    );
    let s6 = key_num_workers() + json_from_num_workers(a);
    assert(s6.skip(key_num_workers().len() as int) =~= json_from_num_workers(a));
    assert((key_num_workers() + json_from_num_workers(b)).skip(key_num_workers().len() as int)
        =~= json_from_num_workers(b));
    lemma_unique_field(
        json_from_num_workers(a),
        a.num_workers as nat,
        key_seed() + json_from_seed(a),
        b.num_workers as nat,
        key_seed() + json_from_seed(b),
    );
    let s7 = key_seed() + json_from_seed(a);
    assert(s7.skip(key_seed().len() as int) =~= json_from_seed(a));
    assert((key_seed() + json_from_seed(b)).skip(key_seed().len() as int) =~= json_from_seed(b));
    lemma_unique_field(
        json_from_seed(a),
        a.seed as nat,
        key_learning_rate() + json_from_learning_rate(a),
        b.seed as nat,
        key_learning_rate() + json_from_learning_rate(b),
    );
    let s8 = key_learning_rate() + json_from_learning_rate(a);
    assert(s8.skip(key_learning_rate().len() as int) =~= json_from_learning_rate(a));
    assert((key_learning_rate() + json_from_learning_rate(b)).skip(key_learning_rate().len() as int)
        =~= json_from_learning_rate(b));
    lemma_unique_field(
        json_from_learning_rate(a),
        a.learning_rate_bits as nat,
        key_close(),
        b.learning_rate_bits as nat,
        key_close(),
    );
}

/// Law: deserializing the serialized form of a configuration yields a
/// configuration with every field equal to the original.
pub proof fn lemma_config_round_trip(c: TrainingConfig)
    ensures
        json_to_config(spec_json(c)) == Some(c),
{
    assert(spec_json(c) == spec_json(c));
    assert(exists|x: TrainingConfig| spec_json(c) == spec_json(x));
    let w = choose|x: TrainingConfig| spec_json(c) == spec_json(x);
    lemma_spec_json_injective(c, w);
}

/// Whether the literal stands at `pos` in `s`; the position after it when so.
fn expect_lit(s: &Vec<u8>, pos: usize, lit: &Vec<u8>) -> (r: Option<usize>)
    requires
        pos <= s@.len(),
    ensures
        match r {
            Some(np) => np == pos + lit@.len() && np <= s@.len() && s@.subrange(
                pos as int,
                np as int,
            ) == lit@,
            None => !(pos + lit@.len() <= s@.len() && s@.subrange(pos as int, pos + lit@.len())
                == lit@),
        },
{
    if s.len() - pos < lit.len() {
        return None;
    }
    let mut i: usize = 0;
    while i < lit.len()
        invariant
            pos + lit@.len() <= s@.len(),
            s@.len() <= usize::MAX,
            i <= lit@.len(),
            forall|j: int| 0 <= j < i ==> s@[pos + j] == lit@[j],
        decreases lit@.len() - i,
    {
        if s[pos + i] != lit[i] {
            proof {
                assert(s@.subrange(pos as int, pos + lit@.len())[i as int] != lit@[i as int]);
            }
            return None;
        }
        i = i + 1;
    }
    proof {
        assert(s@.subrange(pos as int, pos + lit@.len()) =~= lit@);
    }
    Some(pos + lit.len())
}


/// One literal step of deserialization: the position after the literal at
/// `pos`. When the text from `pos` on is known to be the literal followed by
/// `rest` (`valid`), the step succeeds and lands exactly on `rest`.
fn lit_step(
    text: &Vec<u8>,
    pos: usize,
    lit: &Vec<u8>,
    Ghost(lit_spec): Ghost<Seq<u8>>,
    Ghost(rest): Ghost<Seq<u8>>,
    Ghost(valid): Ghost<bool>,
) -> (r: Option<usize>)
    requires
        pos <= text@.len(),
        lit@ == lit_spec,
        valid ==> text@.skip(pos as int) == lit_spec + rest,
    ensures
        match r {
            Some(np) => pos <= np <= text@.len() && (valid ==> np == pos + lit_spec.len()
                && text@.skip(np as int) == rest),
            None => !valid,
        },
{
    let r = expect_lit(text, pos, lit);
    proof {
        if valid {
            lemma_lit_at(text@, pos as int, lit_spec, rest);
        }
    }
    r
}

/// One numeric step of deserialization: the value and position after the
/// digit run at `pos`. When the text from `pos` on is known to be the decimal
/// text of `f` followed by a `rest` that does not begin with a digit
/// (`valid`), the step succeeds with exactly `f` and lands on `rest`.
fn field_step(
    text: &Vec<u8>,
    pos: usize,
    Ghost(f): Ghost<nat>,
    Ghost(rest): Ghost<Seq<u8>>,
    Ghost(valid): Ghost<bool>,
) -> (r: Option<(u64, usize)>)
    requires
        pos <= text@.len(),
        valid ==> text@.skip(pos as int) == dec_of(f) + rest && rest.len() > 0 && !is_digit(
            rest[0],
        ) && f <= u64::MAX,
    ensures
        match r {
            Some((v, np)) => pos < np <= text@.len() && (valid ==> v == f && text@.skip(np as int)
                == rest),
            None => !valid,
        },
{
    proof {
        if valid {
            lemma_number_at(text@, pos as int, f, rest);
            assert(dec_val(text@.subrange(pos as int, pos + dec_of(f).len())) == f);
        }
    }
    parse_u64_at(text, pos)
}

impl TrainingConfig {
    /// Serialize the configuration to its JSON text.
    pub fn to_json(&self) -> (v: Vec<u8>)
        ensures
            v@ == spec_json(*self),
    {
        let mut t_lr = u64_to_dec(self.learning_rate_bits);
        let k9 = key_close_lit();
        push_bytes(&mut t_lr, &k9);
        proof {
            assert(t_lr@ == json_from_learning_rate(*self));
        }
        let mut t_sd = u64_to_dec(self.seed);
        let k8 = key_learning_rate_lit();
        push_bytes(&mut t_sd, &k8);
        push_bytes(&mut t_sd, &t_lr);
        proof {
            assert(t_sd@ =~= json_from_seed(*self));
        }
        let mut t_nw = u64_to_dec(self.num_workers as u64);
        let k7 = key_seed_lit();
        push_bytes(&mut t_nw, &k7);
        push_bytes(&mut t_nw, &t_sd);
        proof {
            assert(t_nw@ =~= json_from_num_workers(*self));
        }
        let mut t_bs = u64_to_dec(self.batch_size as u64);
        let k6 = key_num_workers_lit();
        push_bytes(&mut t_bs, &k6);
        push_bytes(&mut t_bs, &t_nw);
        proof {
            assert(t_bs@ =~= json_from_batch_size(*self));
        }
        let mut t_ne = u64_to_dec(self.num_epochs as u64);
        let k5 = key_batch_size_lit();
        push_bytes(&mut t_ne, &k5);
        push_bytes(&mut t_ne, &t_bs);
        proof {
            assert(t_ne@ =~= json_from_num_epochs(*self));
        }
        let mut t_ep = u64_to_dec(self.optimizer.epsilon_bits as u64);
        let k4 = key_num_epochs_lit();
        push_bytes(&mut t_ep, &k4);
        push_bytes(&mut t_ep, &t_ne);
        proof {
            assert(t_ep@ =~= json_from_epsilon(*self));
        }
        let mut t_b2 = u64_to_dec(self.optimizer.beta_2_bits as u64);
        let k3 = key_epsilon_lit();
        push_bytes(&mut t_b2, &k3);
        push_bytes(&mut t_b2, &t_ep);
        proof {
            assert(t_b2@ =~= json_from_beta_2(*self));
        }
        let mut t_b1 = u64_to_dec(self.optimizer.beta_1_bits as u64);
        let k2 = key_beta_2_lit();
        push_bytes(&mut t_b1, &k2);
        push_bytes(&mut t_b1, &t_b2);
        proof {
            assert(t_b1@ =~= json_from_beta_1(*self));
        }
        let mut out = key_beta_1_lit();
        push_bytes(&mut out, &t_b1);
        proof {
            assert(out@ == spec_json(*self));
        }
        out
    }

    /// Deserialize a configuration out of JSON text: the configuration whose
    /// serialized form is exactly this text, nothing otherwise.
    pub fn from_json(text: &Vec<u8>) -> (r: Option<TrainingConfig>)
        ensures
            r == json_to_config(text@),
            r is Some ==> text@ == spec_json(r.unwrap()),
    {
        proof {
            lemma_key_facts();
        }
        let ghost has = exists|c: TrainingConfig| text@ == spec_json(c);
        let ghost c0 = if has {
            choose|c: TrainingConfig| text@ == spec_json(c)
        } else {
            arbitrary()
        };
        proof {
            if has {
                assert(text@.skip(0) =~= text@);
            }
        }
        let kb1 = key_beta_1_lit();
        let p1 = match lit_step(
            text,
            0,
            &kb1,
            Ghost(key_beta_1()),
            Ghost(json_from_beta_1(c0)),
            Ghost(has),
        ) {
            Some(p) => p,
            None => {
                return None;
            },
        };
        proof {
            if has {
                assert((key_beta_2() + json_from_beta_2(c0))[0] == key_beta_2()[0]);
            }
        }
        let (v_b1, q_b1) = match field_step(
            text,
            p1,
            Ghost(c0.optimizer.beta_1_bits as nat),
            Ghost(key_beta_2() + json_from_beta_2(c0)),
            Ghost(has),
        ) {
            Some(x) => x,
            None => {
                return None;
            },
        };
        if v_b1 > u32::MAX as u64 {
            proof {
                if has {
                    assert(false);
                }
            }
            return None;
        }
        let k_b1 = key_beta_2_lit();
        let p2 = match lit_step(
            text,
            q_b1,
            &k_b1,
            Ghost(key_beta_2()),
            Ghost(json_from_beta_2(c0)),
            Ghost(has),
        ) {
            Some(p) => p,
            None => {
                return None;
            },
        };
        proof {
            if has {
                assert((key_epsilon() + json_from_epsilon(c0))[0] == key_epsilon()[0]);
            }
        }
        let (v_b2, q_b2) = match field_step(
            text,
            p2,
            Ghost(c0.optimizer.beta_2_bits as nat),
            Ghost(key_epsilon() + json_from_epsilon(c0)),
            Ghost(has),
        ) {
            Some(x) => x,
            None => {
                return None;
            },
        };
        if v_b2 > u32::MAX as u64 {
            proof {
                if has {
                    assert(false);
                }
            }
            return None;
        }
        let k_b2 = key_epsilon_lit();
        let p3 = match lit_step(
            text,
            q_b2,
            &k_b2,
            Ghost(key_epsilon()),
            Ghost(json_from_epsilon(c0)),
            Ghost(has),
        ) {
            Some(p) => p,
            None => {
                return None;
            },
        };
        proof {
            if has {
                assert((key_num_epochs() + json_from_num_epochs(c0))[0] == key_num_epochs()[0]);
            }
        }
        let (v_ep, q_ep) = match field_step(
            text,
            p3,
            Ghost(c0.optimizer.epsilon_bits as nat),
            Ghost(key_num_epochs() + json_from_num_epochs(c0)),
            Ghost(has),
        ) {
            Some(x) => x,
            None => {
                return None;
            },
        };
        if v_ep > u32::MAX as u64 {
            proof {
                if has {
                    assert(false);
                }
            }
            return None;
        }
        let k_ep = key_num_epochs_lit();
        let p4 = match lit_step(
            text,
            q_ep,
            &k_ep,
            Ghost(key_num_epochs()),
            Ghost(json_from_num_epochs(c0)),
            Ghost(has),
        ) {
            Some(p) => p,
            None => {
                return None;
            },
        };
        proof {
            if has {
                assert((key_batch_size() + json_from_batch_size(c0))[0] == key_batch_size()[0]);
            }
        }
        let (v_ne, q_ne) = match field_step(
            text,
            p4,
            Ghost(c0.num_epochs as nat),
            Ghost(key_batch_size() + json_from_batch_size(c0)),
            Ghost(has),
        ) {
            Some(x) => x,
            None => {
                return None;
            },
        };
        if v_ne > usize::MAX as u64 {
            proof {
                if has {
                    assert(false);
                }
            }
            return None;
        }
        let k_ne = key_batch_size_lit();
        let p5 = match lit_step(
            text,
            q_ne,
            &k_ne,
            Ghost(key_batch_size()),
            Ghost(json_from_batch_size(c0)),
            Ghost(has),
        ) {
            Some(p) => p,
            None => {
                return None;
            },
        };
        proof {
            if has {
                assert((key_num_workers() + json_from_num_workers(c0))[0] == key_num_workers()[0]);
            }
        }
        let (v_bs, q_bs) = match field_step(
            text,
            p5,
            Ghost(c0.batch_size as nat),
            Ghost(key_num_workers() + json_from_num_workers(c0)),
            Ghost(has),
        ) {
            Some(x) => x,
            None => {
                return None;
            },
        };
        if v_bs > usize::MAX as u64 {
            proof {
                if has {
                    assert(false);
                }
            }
            return None;
        }
        let k_bs = key_num_workers_lit();
        let p6 = match lit_step(
            text,
            q_bs,
            &k_bs,
            Ghost(key_num_workers()),
            Ghost(json_from_num_workers(c0)),
            Ghost(has),
        ) {
            Some(p) => p,
            None => {
                return None;
            },
        };
        proof {
            if has {
                assert((key_seed() + json_from_seed(c0))[0] == key_seed()[0]);
            }
        }
        let (v_nw, q_nw) = match field_step(
            text,
            p6,
            Ghost(c0.num_workers as nat),
            Ghost(key_seed() + json_from_seed(c0)),
            Ghost(has),
        ) {
            Some(x) => x,
            None => {
                return None;
            },
        };
        if v_nw > usize::MAX as u64 {
            proof {
                if has {
                    assert(false);
                }
            }
            return None;
        }
        let k_nw = key_seed_lit();
        let p7 = match lit_step(
            text,
            q_nw,
            &k_nw,
            Ghost(key_seed()),
            Ghost(json_from_seed(c0)),
            Ghost(has),
        ) {
            Some(p) => p,
            None => {
                return None;
            },
        };
        proof {
            if has {
                assert((key_learning_rate() + json_from_learning_rate(c0))[0] == key_learning_rate()[0]);
            }
        }
        let (v_sd, q_sd) = match field_step(
            text,
            p7,
            Ghost(c0.seed as nat),
            Ghost(key_learning_rate() + json_from_learning_rate(c0)),
            Ghost(has),
        ) {
            Some(x) => x,
            None => {
                return None;
            },
        };
        let k_sd = key_learning_rate_lit();
        let p8 = match lit_step(
            text,
            q_sd,
            &k_sd,
            Ghost(key_learning_rate()),
            Ghost(json_from_learning_rate(c0)),
            Ghost(has),
        ) {
            Some(p) => p,
            None => {
                return None;
            },
        };
        proof {
            if has {
                assert((key_close() + Seq::<u8>::empty())[0] == key_close()[0]);
            }
        }
        let (v_lr, q_lr) = match field_step(
            text,
            p8,
            Ghost(c0.learning_rate_bits as nat),
            Ghost(key_close() + Seq::<u8>::empty()),
            Ghost(has),
        ) {
            Some(x) => x,
            None => {
                return None;
            },
        };
        let k_lr = key_close_lit();
        let p9 = match lit_step(
            text,
            q_lr,
            &k_lr,
            Ghost(key_close()),
            Ghost(Seq::<u8>::empty()),
            Ghost(has),
        ) {
            Some(p) => p,
            None => {
                return None;
            },
        };
        if p9 != text.len() {
            proof {
                if has {
                    assert(text@.skip(p9 as int).len() == 0);
                    assert(false);
                }
            }
            return None;
        }
        let cfg = TrainingConfig {
            optimizer: AdamSettings {
                beta_1_bits: v_b1 as u32,
                beta_2_bits: v_b2 as u32,
                epsilon_bits: v_ep as u32,
            },
            num_epochs: v_ne as usize,
            batch_size: v_bs as usize,
            num_workers: v_nw as usize,
            seed: v_sd,
            learning_rate_bits: v_lr,
        };
        proof {
            if has {
                assert(cfg == c0);
            }
        }
        let enc = cfg.to_json();
        if bytes_eq(&enc, text) {
            proof {
                assert(text@ == spec_json(cfg));
                assert(exists|c: TrainingConfig| text@ == spec_json(c));
            }
            Some(cfg)
        } else {
            proof {
                if has {
                    assert(false);
                }
            }
            None
        }
    }
}

} // verus!
