//! Witness kinds as named on the command line, and the text form of a
//! serialized witness.
use vstd::prelude::*;

verus! {

/// The kind of witness to build.
#[derive(Clone, Copy, Debug, PartialEq, Eq, Structural)]
pub enum WitnessType {
    UTxO,
    OldUTxO,
    Account,
}

/// The message given for a name that is no witness kind.
pub const INVALID_WITNESS_TYPE: &'static str = "Invalid witness type, expected `utxo', `legacy-utxo' or `account'";

/// The witness kind that a name stands for.
pub open spec fn witness_type_of(name: Seq<char>) -> Option<WitnessType> {
    if name == "utxo"@ {
        Some(WitnessType::UTxO)
    } else if name == "legacy-utxo"@ {
        Some(WitnessType::OldUTxO)
    } else if name == "account"@ {
        Some(WitnessType::Account)
    } else {
        None
    }
}

fn owned(s: &str) -> (r: String)
    ensures
        r@ == s@,
{
    <String as vstd::string::StringExecFns>::from_str(s)
}

impl std::str::FromStr for WitnessType {
    type Err = &'static str;

    fn from_str(s: &str) -> (r: Result<WitnessType, &'static str>)
        ensures
            match witness_type_of(s@) {
                Some(t) => r == Ok::<WitnessType, &'static str>(t),
                None => r is Err && r->Err_0@ == INVALID_WITNESS_TYPE@,
            },
    {
        let name = owned(s);
        if name == owned("utxo") {
            Ok(WitnessType::UTxO)
        } else if name == owned("legacy-utxo") {
            Ok(WitnessType::OldUTxO)
        } else if name == owned("account") {
            Ok(WitnessType::Account)
        } else {
            Err(INVALID_WITNESS_TYPE)
        }
    }
}

/// The human-readable part under which witnesses are written.
pub const WITNESS_HRP: &'static str = "witness";

#[verifier::external_type_specification]
#[verifier::external_body]
pub struct ExBech32Error(bech32::Error);

/// A human-readable part that bech32 accepts: 1 to 83 characters, each
/// printable ASCII, not both lower and upper case letters.
pub open spec fn hrp_valid(hrp: Seq<char>) -> bool {
    &&& 1 <= hrp.len() <= 83
    &&& forall|i: int| 0 <= i < hrp.len() ==> 33 <= (#[trigger] hrp[i]) as u32 <= 126
    &&& !((exists|i: int| 0 <= i < hrp.len() && 'a' <= #[trigger] hrp[i] <= 'z') && (exists|
        j: int,
    | 0 <= j < hrp.len() && 'A' <= #[trigger] hrp[j] <= 'Z'))
}

/// The bech32 string of `data`, regrouped into 5-bit values, under the
/// human-readable part `hrp`.
pub uninterp spec fn bech32_of(hrp: Seq<char>, data: Seq<u8>) -> Seq<char>;

/// Relies on `ToBase32::to_base32`, which regroups bytes into 5-bit values,
/// and `bech32::encode`, which fails only where its check of the
/// human-readable part does and otherwise returns the checksummed string.
#[verifier::external_body]
fn encode_bech32(hrp: &str, data: &Vec<u8>) -> (r: Result<String, bech32::Error>)
    ensures
        r is Err <==> !hrp_valid(hrp@),
        r is Ok ==> r->Ok_0@ == bech32_of(hrp@, data@),
{
    bech32::encode(hrp, bech32::ToBase32::to_base32(data))
}

/// The text form of a serialized witness: its bech32 string under the
/// `witness` human-readable part.
pub fn encode_witness(witness: &Vec<u8>) -> (r: String)
    ensures
        r@ == bech32_of(WITNESS_HRP@, witness@),
{
    proof {
        reveal_strlit("witness");
        let h = WITNESS_HRP@;
        assert(h.len() == 7);
        assert(forall|i: int| 0 <= i < h.len() ==> 'a' <= #[trigger] h[i] <= 'z');
    }
    match encode_bech32(WITNESS_HRP, witness) {
        Ok(text) => text,
        Err(_) => {
            proof {
                assert(false);
            }
            String::new()
        },
    }
}

} // verus!
