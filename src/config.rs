//! Names of the backing files.
use vstd::prelude::*;
use vstd::string::StringExecFns;

verus! {

/// The decimal digit `d`.
pub open spec fn digit_char(d: nat) -> char {
    if d == 0 {
        '0'
    } else if d == 1 {
        '1'
    } else if d == 2 {
        '2'
    } else if d == 3 {
        '3'
    } else if d == 4 {
        '4'
    } else if d == 5 {
        '5'
    } else if d == 6 {
        '6'
    } else if d == 7 {
        '7'
    } else if d == 8 {
        '8'
    } else {
        '9'
    }
}

/// `n` in decimal, without leading zeros.
pub open spec fn decimal(n: nat) -> Seq<char>
    decreases n,
{
    if n < 10 {
        seq![digit_char(n)]
    } else {
        decimal(n / 10) + seq![digit_char(n % 10)]
    }
}

/// Relies on `u64`'s `Display`, through `to_string`: decimal, without
/// leading zeros.
#[verifier::external_body]
fn u64_to_decimal(n: u64) -> (r: String)
    ensures
        r@ == decimal(n as nat),
{
    n.to_string()
}

/// `prefix`, then `epoch` in decimal, then `suffix`.
pub fn numbered_name(prefix: &str, epoch: u64, suffix: &str) -> (r: String)
    ensures
        r@ == prefix@ + decimal(epoch as nat) + suffix@,
{
    let mut name = String::from_str(prefix);
    let digits = u64_to_decimal(epoch);
    name.append(digits.as_str());
    name.append(suffix);
    name
}

/// Name of the data log of shard `epoch`.
pub fn build_frame_backing_file_name(epoch: u64) -> (r: String)
    ensures
        r@ == "frameset/"@ + decimal(epoch as nat) + ".qtf"@,
{
    numbered_name("frameset/", epoch, ".qtf")
}

/// Name of the index snapshot of shard `epoch`.
pub fn build_index_backing_file_name(epoch: u64) -> (r: String)
    ensures
        r@ == "frameset/"@ + decimal(epoch as nat) + ".qti"@,
{
    numbered_name("frameset/", epoch, ".qti")
}

/// Name of the epoch index snapshot.
pub fn build_epoch_index_backing_file_name() -> (r: String)
    ensures
        r@ == "epochs.qti"@,
{
    String::from_str("epochs.qti")
}

} // verus!
