//! The parameters of the base fee that blocks carry in their extra data since Holocene.
use crate::flashblocks::primitives::{B64, Bytes};
use vstd::prelude::*;

verus! {

/// Parameters of the base fee.
#[derive(Clone, Copy, Debug, PartialEq, Eq)]
pub struct BaseFeeParams {
    /// Bounds the change of the base fee between blocks.
    pub max_change_denominator: u128,
    /// Ratio between a block's gas limit and its gas target.
    pub elasticity_multiplier: u128,
}

/// The error of `op_alloy_consensus` for parameters that cannot be encoded, carried through as it
/// is.
#[verifier::external_type_specification]
#[verifier::external_body]
pub struct ExParamError(op_alloy_consensus::EIP1559ParamError);

/// Why there is no extra data for parameters.
pub enum HoloceneError {
    /// There are no parameters.
    NoParams,
    /// The default parameters do not fit.
    Params(op_alloy_consensus::EIP1559ParamError),
}

/// The four bytes of a number, most significant first.
pub open spec fn be_bytes(n: nat) -> Seq<u8> {
    seq![
        (n / 0x100_0000 % 0x100) as u8,
        (n / 0x1_0000 % 0x100) as u8,
        (n / 0x100 % 0x100) as u8,
        (n % 0x100) as u8,
    ]
}

/// Whether parameters stand for the default ones.
pub open spec fn is_default(params: Seq<u8>) -> bool {
    forall|i: int| 0 <= i < params.len() ==> (#[trigger] params[i]) == 0
}

/// Whether default parameters take four bytes each.
pub open spec fn default_fits(default: BaseFeeParams) -> bool {
    default.max_change_denominator <= u32::MAX && default.elasticity_multiplier <= u32::MAX
}

/// The extra data for parameters: the version 0, the denominator, and the elasticity. Parameters of
/// zeros stand for the default ones.
pub open spec fn extra_data(params: Seq<u8>, default: BaseFeeParams) -> Seq<u8> {
    seq![0u8] + if is_default(params) {
        be_bytes(default.max_change_denominator as nat) + be_bytes(default.elasticity_multiplier as nat)
    } else {
        params
    }
}

/// The extra data for parameters.
///
/// Calls `encode_holocene_extra_data` of `op_alloy_consensus`: the contract claims that it gives a
/// zero byte, and then the eight bytes of the parameters, or where these are all zero the default
/// parameters in four bytes each, most significant first. It fails exactly where default parameters
/// are asked for that do not fit into four bytes.
#[verifier::external_body]
fn raw_extra_data(params: B64, default: BaseFeeParams) -> (r: Result<
    Bytes,
    op_alloy_consensus::EIP1559ParamError,
>)
    ensures
        match r {
            Ok(data) => (is_default(params@) ==> default_fits(default)) && data@ == extra_data(
                params@,
                default,
            ),
            Err(_) => is_default(params@) && !default_fits(default),
        },
{
    let default = alloy_eips::eip1559::BaseFeeParams::new(
        default.max_change_denominator,
        default.elasticity_multiplier,
    );
    op_alloy_consensus::encode_holocene_extra_data(params.into(), default).map(|data| data.to_vec())
}

/// The extra data for parameters, where there are any. Parameters of zeros stand for the default
/// ones.
pub fn get_holocene_extra_data(params: Option<B64>, default: BaseFeeParams) -> (r: Result<
    Bytes,
    HoloceneError,
>)
    ensures
        match r {
            Ok(data) => {
                &&& params is Some
                &&& is_default(params->0@) ==> default_fits(default)
                &&& data@ == extra_data(params->0@, default)
            },
            Err(HoloceneError::NoParams) => params is None,
            Err(HoloceneError::Params(_)) => params is Some && is_default(params->0@)
                && !default_fits(default),
        },
        r matches Ok(data) ==> {
            let p = (params->0)@;
            let d = data@;
            &&& d.len() == 9
            &&& d[0] == 0
            &&& (exists|i: int| 0 <= i < 8 && (#[trigger] p[i]) != 0) ==> forall|i: int|
                0 <= i < 8 ==> (#[trigger] d[i + 1]) == p[i]
            &&& (forall|i: int| 0 <= i < 8 ==> (#[trigger] p[i]) == 0) ==> {
                &&& default.max_change_denominator == d[1] * 0x100_0000 + d[2] * 0x1_0000 + d[3]
                    * 0x100 + d[4]
                &&& default.elasticity_multiplier == d[5] * 0x100_0000 + d[6] * 0x1_0000 + d[7]
                    * 0x100 + d[8]
            }
        },
        params is None ==> r matches Err(HoloceneError::NoParams),
{
    proof {
        if default_fits(default) {
            law_big_endian(default.max_change_denominator as nat);
            law_big_endian(default.elasticity_multiplier as nat);
        }
    }
    match params {
        Some(params) => match raw_extra_data(params, default) {
            Ok(data) => Ok(data),
            Err(e) => Err(HoloceneError::Params(e)),
        },
        None => Err(HoloceneError::NoParams),
    }
}

/// The parameters that the default ones are encoded to.
pub fn default_params(default: BaseFeeParams) -> (r: Result<B64, HoloceneError>)
    ensures
        match r {
            Ok(params) => default_fits(default) && params@ == be_bytes(
                default.max_change_denominator as nat,
            ) + be_bytes(default.elasticity_multiplier as nat),
            Err(HoloceneError::NoParams) => false,
            Err(HoloceneError::Params(_)) => !default_fits(default),
        },
        r matches Ok(params) ==> {
            let b = params@;
            &&& default.max_change_denominator == b[0] * 0x100_0000 + b[1] * 0x1_0000 + b[2] * 0x100
                + b[3]
            &&& default.elasticity_multiplier == b[4] * 0x100_0000 + b[5] * 0x1_0000 + b[6] * 0x100
                + b[7]
        },
        r is Err ==> default.max_change_denominator > u32::MAX || default.elasticity_multiplier
            > u32::MAX,
{
    proof {
        if default_fits(default) {
            law_big_endian(default.max_change_denominator as nat);
            law_big_endian(default.elasticity_multiplier as nat);
        }
    }
    let zero: B64 = [0;8];
    match raw_extra_data(zero, default) {
        Ok(data) => {
            let params: B64 = [
                data[1],
                data[2],
                data[3],
                data[4],
                data[5],
                data[6],
                data[7],
                data[8],
            ];
            assert(params@ =~= be_bytes(default.max_change_denominator as nat) + be_bytes(
                default.elasticity_multiplier as nat,
            ));
            Ok(params)
        },
        Err(e) => Err(HoloceneError::Params(e)),
    }
}

/// The four bytes of a number that fits into them say the number, the most significant byte first.
pub proof fn law_big_endian(n: nat)
    requires
        n <= u32::MAX,
    ensures
        be_bytes(n).len() == 4,
        n == be_bytes(n)[0] * 0x100_0000 + be_bytes(n)[1] * 0x1_0000 + be_bytes(n)[2] * 0x100
            + be_bytes(n)[3],
{
}

/// Parameters that stand for the default ones are written out as these: the extra data says the default
/// denominator, and then the default elasticity.
pub proof fn law_default_params(params: B64, default: BaseFeeParams)
    requires
        forall|i: int| 0 <= i < 8 ==> (#[trigger] params@[i]) == 0,
        default_fits(default),
    ensures
        ({
            let d = extra_data(params@, default);
            &&& d.len() == 9
            &&& d[0] == 0
            &&& default.max_change_denominator == d[1] * 0x100_0000 + d[2] * 0x1_0000 + d[3] * 0x100
                + d[4]
            &&& default.elasticity_multiplier == d[5] * 0x100_0000 + d[6] * 0x1_0000 + d[7] * 0x100
                + d[8]
        }),
{
    law_big_endian(default.max_change_denominator as nat);
    law_big_endian(default.elasticity_multiplier as nat);
    let d = extra_data(params@, default);
    let a = be_bytes(default.max_change_denominator as nat);
    let b = be_bytes(default.elasticity_multiplier as nat);
    assert(d =~= seq![0u8] + (a + b));
    assert(d[1] == a[0] && d[2] == a[1] && d[3] == a[2] && d[4] == a[3]);
    assert(d[5] == b[0] && d[6] == b[1] && d[7] == b[2] && d[8] == b[3]);
}

/// The parameters in the extra data for given ones are those, unless they stand for the default
/// ones.
pub proof fn law_params_kept(params: B64, default: BaseFeeParams)
    requires
        !is_default(params@),
    ensures
        extra_data(params@, default).len() == 9,
        extra_data(params@, default)[0] == 0,
        extra_data(params@, default).skip(1) == params@,
{
    assert(extra_data(params@, default).skip(1) =~= params@);
}

}
