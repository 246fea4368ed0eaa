use vstd::prelude::*;
use crate::errors::ErrorCode;

verus! {

/// The asset kinds the pool supports.
#[allow(non_camel_case_types, clippy::upper_case_acronyms)]
#[derive(Clone, Copy, Debug, PartialEq, Eq, Structural)]
pub enum MintKind {
    SOL,
    USDC,
}

/// The name an asset kind goes by in requests.
pub open spec fn mint_kind_name(kind: MintKind) -> Seq<char> {
    match kind {
        MintKind::SOL => seq!['S', 'O', 'L'],
        MintKind::USDC => seq!['U', 'S', 'D', 'C'],
    }
}

/// The asset kind named `name`; fails with `UnsupportedMintKind` for any
/// other name.
pub fn mint_kind_from_name(name: &str) -> (r: Result<MintKind, ErrorCode>)
    ensures
        name@ == mint_kind_name(MintKind::SOL) ==> r == Ok::<MintKind, ErrorCode>(MintKind::SOL),
        name@ == mint_kind_name(MintKind::USDC) ==> r == Ok::<MintKind, ErrorCode>(MintKind::USDC),
        name@ != mint_kind_name(MintKind::SOL) && name@ != mint_kind_name(MintKind::USDC) ==> r
            == Err::<MintKind, ErrorCode>(ErrorCode::UnsupportedMintKind),
{
    let n = name.unicode_len();
    if n == 3 && name.get_char(0) == 'S' && name.get_char(1) == 'O' && name.get_char(2) == 'L' {
        proof {
            assert(name@ =~= mint_kind_name(MintKind::SOL));
        }
        Ok(MintKind::SOL)
    } else if n == 4 && name.get_char(0) == 'U' && name.get_char(1) == 'S' && name.get_char(2)
        == 'D' && name.get_char(3) == 'C' {
        proof {
            assert(name@ =~= mint_kind_name(MintKind::USDC));
        }
        Ok(MintKind::USDC)
    } else {
        Err(ErrorCode::UnsupportedMintKind)
    }
}

/// Direction of a change to a share total.
#[derive(Clone, Copy, Debug, PartialEq, Eq, Structural)]
pub enum ShareOp {
    Increase,
    Decrease,
}

} // verus!
