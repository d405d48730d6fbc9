//! Accounts as the cells that hold them: at most one main cell (a normal
//! account's nonce, or a contract's state) and any number of fund cells.

use crate::chain::{CellOutput, CellOutputView, OutPoint, OutPointView};
use crate::error::Error;
use crate::num::{capacity_to_wei, le_value, u64_limit, U256};
use vstd::prelude::*;

verus! {

/// The kind of a main cell, written in its first data byte.
#[derive(Debug, Clone, Copy, PartialEq, Eq, Hash, Structural)]
pub enum CellType {
    NormalMainCell,
    ContractMainCell,
}

/// The first data byte of a normal account's main cell.
pub const NORMAL_MAIN_CELL_TAG: u8 = 1;

/// The first data byte of a contract's main cell.
pub const CONTRACT_MAIN_CELL_TAG: u8 = 2;

impl CellType {
    /// The cell type that the tag byte `b` names.
    pub fn try_from(b: u8) -> (r: Result<CellType, Error>)
        ensures
            b == NORMAL_MAIN_CELL_TAG ==> r == Ok::<CellType, Error>(CellType::NormalMainCell),
            b == CONTRACT_MAIN_CELL_TAG ==> r == Ok::<CellType, Error>(CellType::ContractMainCell),
            b != NORMAL_MAIN_CELL_TAG && b != CONTRACT_MAIN_CELL_TAG ==> r matches Err(Error::MalformedData(_)),
    {
        if b == NORMAL_MAIN_CELL_TAG {
            Ok(CellType::NormalMainCell)
        } else if b == CONTRACT_MAIN_CELL_TAG {
            Ok(CellType::ContractMainCell)
        } else {
            Err(Error::malformed("Invalid cell type"))
        }
    }

    /// The tag byte of this cell type.
    pub fn tag(&self) -> (r: u8)
        ensures
            *self == CellType::NormalMainCell ==> r == NORMAL_MAIN_CELL_TAG,
            *self == CellType::ContractMainCell ==> r == CONTRACT_MAIN_CELL_TAG,
    {
        match self {
            CellType::NormalMainCell => NORMAL_MAIN_CELL_TAG,
            CellType::ContractMainCell => CONTRACT_MAIN_CELL_TAG,
        }
    }
}

/// A live cell together with its location.
#[derive(Debug, Clone, PartialEq, Eq)]
pub struct EthCell(pub CellOutput, pub OutPoint);

impl EthCell {
    pub open spec fn output(self) -> CellOutputView {
        self.0@
    }

    pub open spec fn out_point(self) -> OutPointView {
        self.1@
    }

    /// A main cell carries data; a fund cell carries none.
    pub open spec fn is_main(self) -> bool {
        self.0.data@.len() > 0
    }
}

/// An account at some block: its main cell, if any, and its fund cells.
#[derive(Debug, Clone, PartialEq, Eq)]
pub struct EthAccount {
    pub main_cell: Option<EthCell>,
    pub fund_cells: Vec<EthCell>,
}

/// The sum of the capacities of `cells`.
pub open spec fn capacity_sum(cells: Seq<EthCell>) -> nat
    decreases cells.len(),
{
    if cells.len() == 0 {
        0
    } else {
        capacity_sum(cells.drop_last()) + cells.last().0.capacity as nat
    }
}

impl EthAccount {
    /// The capacity of every cell of the account, in shannons.
    pub open spec fn spec_total_capacity(self) -> nat {
        self.main_capacity() + capacity_sum(self.fund_cells@)
    }

    /// The capacity of the main cell, zero without one.
    pub open spec fn main_capacity(self) -> nat {
        match self.main_cell {
            Some(c) => c.0.capacity as nat,
            None => 0,
        }
    }

    /// The account is a contract: its main cell's first byte is the contract
    /// tag.
    pub open spec fn spec_is_contract(self) -> bool {
        self.main_cell matches Some(c) && c.0.data@.len() > 0 && c.0.data@[0] == CONTRACT_MAIN_CELL_TAG
    }

    /// The main cell's first byte is neither tag.
    pub open spec fn has_bad_tag(self) -> bool {
        self.main_cell matches Some(c) && c.0.data@.len() > 0 && c.0.data@[0] != NORMAL_MAIN_CELL_TAG
            && c.0.data@[0] != CONTRACT_MAIN_CELL_TAG
    }

    /// The nonce the account's next transaction carries: one past the stored
    /// nonce (bytes 1..9 of the main cell, little-endian), or zero without a
    /// main cell; none when the main cell is too short to hold a nonce.
    pub open spec fn spec_next_nonce(self) -> Option<nat> {
        match self.main_cell {
            Some(c) => if c.0.data@.len() >= 9 {
                Some(le_value(c.0.data@.subrange(1, 9)) + 1)
            } else {
                None
            },
            None => Some(0),
        }
    }

    /// Whether the account belongs to a contract.
    pub fn contract_account(&self) -> (r: Result<bool, Error>)
        ensures
            r is Err <==> self.has_bad_tag(),
            r matches Ok(b) ==> b == self.spec_is_contract(),
            r matches Err(e) ==> e is MalformedData,
    {
        if let Some(main_cell) = &self.main_cell {
            if main_cell.0.data.len() > 0 {
                let t = CellType::try_from(main_cell.0.data[0])?;
                return Ok(t == CellType::ContractMainCell);
            }
        }
        Ok(false)
    }

    /// The serialized contract state: the main cell's data after its tag.
    pub fn contract_data(&self) -> (r: Result<Vec<u8>, Error>)
        ensures
            r is Ok <==> (self.main_cell matches Some(c) && c.is_main()),
            r matches Ok(d) ==> self.main_cell matches Some(c) && d@ == c.0.data@.skip(1),
            r matches Err(e) ==> e is MalformedData,
    {
        match &self.main_cell {
            Some(main_cell) => {
                if main_cell.0.data.len() == 0 {
                    return Err(Error::malformed("Contract main cell has no data!"));
                }
                Ok(crate::transaction::bytes_from(main_cell.0.data.as_slice(), 1))
            },
            None => Err(Error::malformed("Contract must have main cell!")),
        }
    }

    /// The nonce of the account's next transaction.
    pub fn next_nonce(&self) -> (r: Result<U256, Error>)
        ensures
            r is Ok <==> self.spec_next_nonce() is Some,
            r matches Ok(n) ==> Some(n.value()) == self.spec_next_nonce(),
            r matches Err(e) ==> (e matches Error::MalformedData(m) && m@ == "Invalid main cell"@),
    {
        match &self.main_cell {
            Some(main_cell) => {
                let data = &main_cell.0.data;
                if data.len() < 9 {
                    return Err(Error::malformed("Invalid main cell"));
                }
                let mut bytes = [0u8; 32];
                let mut i: usize = 0;
                while i < 8
                    invariant
                        data@.len() >= 9,
                        i <= 8,
                        forall|k: int| 0 <= k < i ==> bytes@[k] == data@[k + 1],
                        forall|k: int| 8 <= k < 32 ==> bytes@[k] == 0,
                    decreases 8 - i,
                {
                    bytes[i] = data[i + 1];
                    i = i + 1;
                }
                let stored = U256 { le_bytes: bytes };
                proof {
                    let lo = bytes@.take(8);
                    let hi = bytes@.skip(8);
                    assert(bytes@ =~= lo + hi);
                    assert(lo =~= data@.subrange(1, 9));
                    crate::num::lemma_le_value_split(lo, hi);
                    crate::num::lemma_le_value_zero(hi);
                    crate::num::lemma_le_value_bound(lo);
                    crate::num::lemma_pow256_known();
                }
                let one = U256::from_u64(1);
                match stored.checked_add(&one) {
                    Some(n) => Ok(n),
                    None => Err(Error::malformed("Nonce addition overflow!")),
                }
            },
            None => Ok(U256::zero()),
        }
    }

    /// The capacity of every cell of the account.
    pub fn total_capacities(&self) -> (r: Result<u64, Error>)
        ensures
            r is Ok <==> self.spec_total_capacity() < u64_limit(),
            r matches Ok(c) ==> c as nat == self.spec_total_capacity(),
            r matches Err(e) ==> (e matches Error::MalformedData(m) && m@ == "Capacity overflow"@),
    {
        proof {
            crate::num::lemma_pow256_known();
        }
        let mut sum: u64 = match &self.main_cell {
            Some(c) => c.0.capacity,
            None => 0,
        };
        let ghost base: nat = self.main_capacity();
        let mut i: usize = 0;
        while i < self.fund_cells.len()
            invariant
                i <= self.fund_cells@.len(),
                sum as nat == base + capacity_sum(self.fund_cells@.take(i as int)),
                base == self.main_capacity(),
                crate::num::pow256(8) == 0x1_0000_0000_0000_0000,
            decreases self.fund_cells@.len() - i,
        {
            proof {
                assert(self.fund_cells@.take(i + 1).drop_last() =~= self.fund_cells@.take(i as int));
            }
            match sum.checked_add(self.fund_cells[i].0.capacity) {
                Some(s) => {
                    sum = s;
                },
                None => {
                    proof {
                        lemma_capacity_sum_prefix(self.fund_cells@, i + 1);
                    }
                    return Err(Error::malformed("Capacity overflow"));
                },
            }
            i = i + 1;
        }
        proof {
            assert(self.fund_cells@.take(i as int) =~= self.fund_cells@);
        }
        Ok(sum)
    }

    /// The capacity of every cell of the account, in wei.
    pub fn total_capacities_in_wei(&self) -> (r: Result<U256, Error>)
        ensures
            r is Ok <==> self.spec_total_capacity() < u64_limit(),
            r matches Ok(w) ==> w.value() == self.spec_total_capacity() * crate::num::SHANNON_TO_WEI,
            r matches Err(e) ==> (e matches Error::MalformedData(m) && m@ == "Capacity overflow"@),
    {
        let c = self.total_capacities()?;
        capacity_to_wei(c)
    }
}

proof fn lemma_capacity_sum_prefix(cells: Seq<EthCell>, k: int)
    requires
        0 <= k <= cells.len(),
    ensures
        capacity_sum(cells.take(k)) <= capacity_sum(cells),
    decreases cells.len() - k,
{
    if k < cells.len() {
        lemma_capacity_sum_prefix(cells.drop_last(), k);
        assert(cells.drop_last().take(k) =~= cells.take(k));
    } else {
        assert(cells.take(k) =~= cells);
    }
}

/// The cells that carry data (main cells), in order.
pub open spec fn main_cells(cells: Seq<EthCell>) -> Seq<EthCell> {
    cells.filter(|c: EthCell| c.is_main())
}

/// The cells that carry no data (fund cells), in order.
pub open spec fn fund_cells(cells: Seq<EthCell>) -> Seq<EthCell> {
    cells.filter(|c: EthCell| !c.is_main())
}

/// Groups an account's cells into its main cell and its fund cells; more
/// than one main cell is corrupt data.
pub fn account_from_cells(cells: Vec<EthCell>) -> (r: Result<EthAccount, Error>)
    ensures
        r is Ok <==> main_cells(cells@).len() <= 1,
        r matches Ok(a) ==> {
            &&& a.fund_cells@ == fund_cells(cells@)
            &&& main_cells(cells@).len() == 0 ==> a.main_cell is None
            &&& main_cells(cells@).len() == 1 ==> a.main_cell == Some(main_cells(cells@)[0])
        },
        r matches Err(e) ==> (e matches Error::MalformedData(m) && m@ == "Invalid account cells"@),
{
    let ghost all = cells@;
    let mut main: Vec<EthCell> = Vec::new();
    let mut funds: Vec<EthCell> = Vec::new();
    let mut rest = cells;
    let mut taken: usize = 0;
    let n = rest.len();
    while rest.len() > 0
        invariant
            n == all.len(),
            taken + rest@.len() == n,
            rest@ == all.skip(taken as int),
            main@ == main_cells(all.take(taken as int)),
            funds@ == fund_cells(all.take(taken as int)),
        decreases rest@.len(),
    {
        let c = rest.remove(0);
        proof {
            assert(c == all[taken as int]);
            assert(all.take(taken + 1).drop_last() =~= all.take(taken as int));
            assert(all.take(taken + 1).last() == c);
            assert(rest@ =~= all.skip(taken + 1));
            reveal(Seq::filter);
        }
        if c.0.data.len() > 0 {
            main.push(c);
        } else {
            funds.push(c);
        }
        taken = taken + 1;
    }
    proof {
        assert(all.take(n as int) =~= all);
    }
    if main.len() > 1 {
        return Err(Error::malformed("Invalid account cells"));
    }
    let main_cell = main.pop();
    Ok(EthAccount { main_cell, fund_cells: funds })
}

} // verus!
