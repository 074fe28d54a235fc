//! Lending protocols: what their accounts say.

use crate::anchor::discriminator;
use crate::base58::address_of;
use crate::bytes::LayoutError;
use crate::config::Config;
use crate::keymap::PubkeyMap;
use crate::protocol::drift::{spot_slot, Drift};
use crate::protocol::kamino::{obligation_slot, Kamino};
use crate::protocol::marginfi::{balance_slot, MarginFi};
use crate::protocol::solend::Solend;
use crate::pubkey::Pubkey;
use crate::tally::{count, indices, lemma_count_same};
use crate::text::same;
use crate::types::{models, BankConfig, Holding, PositionModel, RawPosition};
use std::collections::HashMap;
use vstd::prelude::*;

pub mod drift;
pub mod kamino;
pub mod marginfi;
pub mod solend;

verus! {

broadcast use vstd::std_specs::hash::group_hash_axioms;

/// Implementation status for the dashboard. Pending protocols are
/// registered but their parsers are not yet verified against on-chain
/// layouts; they give no banks and no positions.
#[derive(Clone, Copy, PartialEq, Eq, Structural, Debug)]
pub enum ImplStatus {
    Live,
    Pending,
}

/// What a bank account says.
#[derive(Clone, Copy, PartialEq, Eq, Structural, Debug)]
pub struct ParsedBank {
    pub config: BankConfig,
    /// The index by which positions refer to the bank, where the protocol
    /// numbers its banks.
    pub market_index: Option<u16>,
    /// An oracle setup number that no known setup has.
    pub odd_oracle_setup: Option<u8>,
}

pub type BankReading = Result<ParsedBank, LayoutError>;

/// A position account that has no debt is no position.
pub type PositionReading = Result<Option<PositionModel>, LayoutError>;

/// An account's address and its data.
pub type RawAccount = (Pubkey, Vec<u8>);

/// The two sides of a position.
#[verifier::ext_equal]
pub struct Sides {
    pub deposits: Seq<Holding>,
    pub borrows: Seq<Holding>,
}

pub type SidesReading = Result<Sides, LayoutError>;

/// Nothing on either side.
pub open spec fn no_sides() -> Sides {
    Sides { deposits: Seq::empty(), borrows: Seq::empty() }
}

/// What the first `n` slots hold together, slot after slot; the first slot
/// that cannot be read decides the error.
pub open spec fn walk(slot: spec_fn(int) -> SidesReading, n: int) -> SidesReading
    decreases n,
{
    if n <= 0 {
        Ok(no_sides())
    } else {
        match walk(slot, n - 1) {
            Err(e) => Err(e),
            Ok(all) => match slot(n - 1) {
                Err(e) => Err(e),
                Ok(more) => Ok(
                    Sides {
                        deposits: all.deposits + more.deposits,
                        borrows: all.borrows + more.borrows,
                    },
                ),
            },
        }
    }
}

/// An error in some slot is the error of all slots.
pub(crate) proof fn lemma_walk_fails(slot: spec_fn(int) -> SidesReading, k: int, n: int)
    requires
        k <= n,
        walk(slot, k) is Err,
    ensures
        walk(slot, n) == walk(slot, k),
    decreases n,
{
    if k < n {
        lemma_walk_fails(slot, k, n - 1);
    }
}

/// The position of `owner` with the given sides: none without a borrow.
pub open spec fn borrower(address: Pubkey, owner: Pubkey, sides: Sides) -> Option<PositionModel> {
    if sides.borrows.len() == 0 {
        None
    } else {
        Some(
            PositionModel {
                address,
                owner,
                deposits: sides.deposits,
                borrows: sides.borrows,
            },
        )
    }
}

/// A parse result, apart from how it is stored.
pub open spec fn modelled(out: Result<Option<RawPosition>, LayoutError>) -> PositionReading {
    match out {
        Ok(Some(p)) => Ok(Some(p@)),
        Ok(None) => Ok(None),
        Err(e) => Err(e),
    }
}

pub(crate) fn make_borrower(
    address: &Pubkey,
    owner: Pubkey,
    deposits: Vec<Holding>,
    borrows: Vec<Holding>,
) -> (out: Option<RawPosition>)
    ensures
        modelled(Ok(out)) == Ok::<Option<PositionModel>, LayoutError>(
            borrower(*address, owner, Sides { deposits: deposits@, borrows: borrows@ }),
        ),
{
    if borrows.len() == 0 {
        None
    } else {
        Some(RawPosition { address: *address, owner, deposits, borrows })
    }
}

/// The banks of a protocol, by address, and the addresses of those that
/// positions refer to by index.
pub struct BankBook {
    pub banks: PubkeyMap<BankConfig>,
    pub markets: HashMap<u16, Pubkey>,
}

/// The outcome of reading a protocol's bank accounts.
pub struct BankLoad {
    pub book: BankBook,
    /// The accounts that could not be read, and why.
    pub failed: Vec<(Pubkey, LayoutError)>,
    /// The banks with an oracle setup number that no known setup has.
    pub odd_oracle_setups: Vec<(Pubkey, u8)>,
}

/// The outcome of reading a protocol's position accounts.
pub struct PositionLoad {
    pub positions: Vec<RawPosition>,
    /// The accounts that could not be read, and why.
    pub failed: Vec<(Pubkey, LayoutError)>,
}

/// The banks that the first `n` accounts give.
pub open spec fn banks_from<P: LendingProtocol>(
    p: &P,
    raw: Seq<RawAccount>,
    n: int,
) -> Map<Pubkey, BankConfig>
    decreases n,
{
    if n <= 0 {
        Map::empty()
    } else {
        match p.bank_of(raw[n - 1].0, raw[n - 1].1@) {
            Ok(bank) => banks_from(p, raw, n - 1).insert(raw[n - 1].0, bank.config),
            Err(_) => banks_from(p, raw, n - 1),
        }
    }
}

/// The indices that the first `n` accounts give out.
pub open spec fn markets_from<P: LendingProtocol>(
    p: &P,
    raw: Seq<RawAccount>,
    n: int,
) -> Map<u16, Pubkey>
    decreases n,
{
    if n <= 0 {
        Map::empty()
    } else {
        match p.bank_of(raw[n - 1].0, raw[n - 1].1@) {
            Ok(ParsedBank { market_index: Some(index), .. }) => markets_from(
                p,
                raw,
                n - 1,
            ).insert(index, raw[n - 1].0),
            _ => markets_from(p, raw, n - 1),
        }
    }
}

/// Which of the first `n` bank accounts cannot be read, and why.
pub open spec fn bank_failures<P: LendingProtocol>(
    p: &P,
    raw: Seq<RawAccount>,
    n: int,
) -> Seq<(Pubkey, LayoutError)>
    decreases n,
{
    if n <= 0 {
        Seq::empty()
    } else {
        match p.bank_of(raw[n - 1].0, raw[n - 1].1@) {
            Err(e) => bank_failures(p, raw, n - 1).push((raw[n - 1].0, e)),
            Ok(_) => bank_failures(p, raw, n - 1),
        }
    }
}

/// Which of the first `n` bank accounts have an unknown oracle setup.
pub open spec fn odd_setups<P: LendingProtocol>(
    p: &P,
    raw: Seq<RawAccount>,
    n: int,
) -> Seq<(Pubkey, u8)>
    decreases n,
{
    if n <= 0 {
        Seq::empty()
    } else {
        match p.bank_of(raw[n - 1].0, raw[n - 1].1@) {
            Ok(ParsedBank { odd_oracle_setup: Some(setup), .. }) => odd_setups(p, raw, n - 1).push(
                (raw[n - 1].0, setup),
            ),
            _ => odd_setups(p, raw, n - 1),
        }
    }
}

/// The positions that the first `n` accounts give, in order.
pub open spec fn positions_from<P: LendingProtocol>(
    p: &P,
    raw: Seq<RawAccount>,
    banks: Map<Pubkey, BankConfig>,
    markets: Map<u16, Pubkey>,
    n: int,
) -> Seq<PositionModel>
    decreases n,
{
    if n <= 0 {
        Seq::empty()
    } else {
        match p.position_of(raw[n - 1].0, raw[n - 1].1@, banks, markets) {
            Ok(Some(position)) => positions_from(p, raw, banks, markets, n - 1).push(position),
            _ => positions_from(p, raw, banks, markets, n - 1),
        }
    }
}

/// Which of the first `n` position accounts cannot be read, and why.
pub open spec fn position_failures<P: LendingProtocol>(
    p: &P,
    raw: Seq<RawAccount>,
    banks: Map<Pubkey, BankConfig>,
    markets: Map<u16, Pubkey>,
    n: int,
) -> Seq<(Pubkey, LayoutError)>
    decreases n,
{
    if n <= 0 {
        Seq::empty()
    } else {
        match p.position_of(raw[n - 1].0, raw[n - 1].1@, banks, markets) {
            Err(e) => position_failures(p, raw, banks, markets, n - 1).push((raw[n - 1].0, e)),
            Ok(_) => position_failures(p, raw, banks, markets, n - 1),
        }
    }
}

/// A lending protocol, by what its accounts say.
pub trait LendingProtocol {
    spec fn label(&self) -> Seq<char>;

    spec fn readiness(&self) -> ImplStatus;

    /// The type of the accounts that describe banks.
    spec fn bank_type(&self) -> Seq<char>;

    /// The type of the accounts that describe positions.
    spec fn position_type(&self) -> Seq<char>;

    /// Whether position accounts can hold a position at all, given the indices
    /// of the banks.
    spec fn reads_positions(&self, markets: Map<u16, Pubkey>) -> bool;

    /// What a bank account says.
    spec fn bank_of(&self, address: Pubkey, data: Seq<u8>) -> BankReading;

    /// What a position account says.
    spec fn position_of(
        &self,
        address: Pubkey,
        data: Seq<u8>,
        banks: Map<Pubkey, BankConfig>,
        markets: Map<u16, Pubkey>,
    ) -> PositionReading;

    fn name(&self) -> (out: &'static str)
        ensures
            out@ == self.label(),
    ;

    fn status(&self) -> (out: ImplStatus)
        ensures
            out == self.readiness(),
    ;

    /// The bytes that every bank account starts with.
    fn bank_disc(&self) -> (out: [u8; 8])
        ensures
            out@ == discriminator("account:"@, self.bank_type()),
    ;

    /// The bytes that every position account starts with.
    fn position_disc(&self) -> (out: [u8; 8])
        ensures
            out@ == discriminator("account:"@, self.position_type()),
    ;

    /// Whether there is any use in fetching position accounts.
    fn wants_positions(&self, book: &BankBook) -> (out: bool)
        ensures
            out == self.reads_positions(book.markets@),
    ;

    fn read_bank(&self, address: &Pubkey, data: &[u8]) -> (out: BankReading)
        ensures
            out == self.bank_of(*address, data@),
    ;

    fn read_position(&self, address: &Pubkey, data: &[u8], book: &BankBook) -> (out: Result<
        Option<RawPosition>,
        LayoutError,
    >)
        ensures
            modelled(out) == self.position_of(*address, data@, book.banks@, book.markets@),
    ;
}

/// Whether `load` is what the bank accounts say.
pub open spec fn is_bank_load<P: LendingProtocol>(
    load: BankLoad,
    p: P,
    raw: Seq<RawAccount>,
) -> bool {
    let n = raw.len() as int;
    &&& load.book.banks@ == banks_from(&p, raw, n)
    &&& load.book.markets@ == markets_from(&p, raw, n)
    &&& load.failed@ == bank_failures(&p, raw, n)
    &&& load.odd_oracle_setups@ == odd_setups(&p, raw, n)
}

/// Whether `load` is what the position accounts say, given the banks.
pub open spec fn is_position_load<P: LendingProtocol>(
    load: PositionLoad,
    p: P,
    raw: Seq<RawAccount>,
    book: BankBook,
) -> bool {
    let n = raw.len() as int;
    &&& models(load.positions@) == positions_from(&p, raw, book.banks@, book.markets@, n)
    &&& load.failed@ == position_failures(&p, raw, book.banks@, book.markets@, n)
}

/// Reads the bank accounts of the protocol.
pub fn load_banks<P: LendingProtocol>(protocol: &P, raw: &Vec<RawAccount>) -> (out: BankLoad)
    ensures
        is_bank_load(out, *protocol, raw@),
{
    let mut banks: PubkeyMap<BankConfig> = PubkeyMap::new();
    let mut markets: HashMap<u16, Pubkey> = HashMap::new();
    let mut failed: Vec<(Pubkey, LayoutError)> = Vec::new();
    let mut odd_oracle_setups: Vec<(Pubkey, u8)> = Vec::new();
    let mut n: usize = 0;
    while n < raw.len()
        invariant
            n <= raw@.len(),
            banks@ == banks_from(protocol, raw@, n as int),
            markets@ == markets_from(protocol, raw@, n as int),
            failed@ == bank_failures(protocol, raw@, n as int),
            odd_oracle_setups@ == odd_setups(protocol, raw@, n as int),
        decreases raw@.len() - n,
    {
        let address: Pubkey = raw[n].0;
        match protocol.read_bank(&address, raw[n].1.as_slice()) {
            Ok(bank) => {
                banks.insert(address, bank.config);
                if let Some(index) = bank.market_index {
                    markets.insert(index, address);
                }
                if let Some(setup) = bank.odd_oracle_setup {
                    odd_oracle_setups.push((address, setup));
                }
            },
            Err(e) => {
                failed.push((address, e));
            },
        }
        n = n + 1;
    }
    BankLoad { book: BankBook { banks, markets }, failed, odd_oracle_setups }
}

/// Reads the position accounts of the protocol.
pub fn load_positions<P: LendingProtocol>(
    protocol: &P,
    raw: &Vec<RawAccount>,
    book: &BankBook,
) -> (out: PositionLoad)
    ensures
        is_position_load(out, *protocol, raw@, *book),
{
    let mut positions: Vec<RawPosition> = Vec::new();
    let mut failed: Vec<(Pubkey, LayoutError)> = Vec::new();
    let mut n: usize = 0;
    assert(models(positions@) =~= Seq::<PositionModel>::empty());
    while n < raw.len()
        invariant
            n <= raw@.len(),
            models(positions@) == positions_from(
                protocol,
                raw@,
                book.banks@,
                book.markets@,
                n as int,
            ),
            failed@ == position_failures(protocol, raw@, book.banks@, book.markets@, n as int),
        decreases raw@.len() - n,
    {
        let address: Pubkey = raw[n].0;
        let ghost before = positions@;
        match protocol.read_position(&address, raw[n].1.as_slice(), book) {
            Ok(Some(position)) => {
                positions.push(position);
                assert(models(positions@) =~= models(before).push(position@));
            },
            Ok(None) => {},
            Err(e) => {
                failed.push((address, e));
            },
        }
        n = n + 1;
    }
    PositionLoad { positions, failed }
}

/// A protocol that can be scanned.
#[derive(Clone, Copy, PartialEq, Eq, Structural, Debug)]
pub enum Protocol {
    MarginFi(MarginFi),
    Kamino(Kamino),
    Drift(Drift),
    Solend(Solend),
}

impl Protocol {
    pub open spec fn address(self) -> Pubkey {
        match self {
            Protocol::MarginFi(p) => p.program_id,
            Protocol::Kamino(p) => p.program_id,
            Protocol::Drift(p) => p.program_id,
            Protocol::Solend(p) => p.program_id,
        }
    }

    /// The address of the program.
    pub fn program_id(&self) -> (out: Pubkey)
        ensures
            out == self.address(),
    {
        match self {
            Protocol::MarginFi(p) => p.program_id,
            Protocol::Kamino(p) => p.program_id,
            Protocol::Drift(p) => p.program_id,
            Protocol::Solend(p) => p.program_id,
        }
    }
}

impl LendingProtocol for Protocol {
    open spec fn label(&self) -> Seq<char> {
        match *self {
            Protocol::MarginFi(p) => p.label(),
            Protocol::Kamino(p) => p.label(),
            Protocol::Drift(p) => p.label(),
            Protocol::Solend(p) => p.label(),
        }
    }

    open spec fn readiness(&self) -> ImplStatus {
        match *self {
            Protocol::MarginFi(p) => p.readiness(),
            Protocol::Kamino(p) => p.readiness(),
            Protocol::Drift(p) => p.readiness(),
            Protocol::Solend(p) => p.readiness(),
        }
    }

    open spec fn bank_type(&self) -> Seq<char> {
        match *self {
            Protocol::MarginFi(p) => p.bank_type(),
            Protocol::Kamino(p) => p.bank_type(),
            Protocol::Drift(p) => p.bank_type(),
            Protocol::Solend(p) => p.bank_type(),
        }
    }

    open spec fn position_type(&self) -> Seq<char> {
        match *self {
            Protocol::MarginFi(p) => p.position_type(),
            Protocol::Kamino(p) => p.position_type(),
            Protocol::Drift(p) => p.position_type(),
            Protocol::Solend(p) => p.position_type(),
        }
    }

    open spec fn reads_positions(&self, markets: Map<u16, Pubkey>) -> bool {
        match *self {
            Protocol::MarginFi(p) => p.reads_positions(markets),
            Protocol::Kamino(p) => p.reads_positions(markets),
            Protocol::Drift(p) => p.reads_positions(markets),
            Protocol::Solend(p) => p.reads_positions(markets),
        }
    }

    open spec fn bank_of(&self, address: Pubkey, data: Seq<u8>) -> BankReading {
        match *self {
            Protocol::MarginFi(p) => p.bank_of(address, data),
            Protocol::Kamino(p) => p.bank_of(address, data),
            Protocol::Drift(p) => p.bank_of(address, data),
            Protocol::Solend(p) => p.bank_of(address, data),
        }
    }

    open spec fn position_of(
        &self,
        address: Pubkey,
        data: Seq<u8>,
        banks: Map<Pubkey, BankConfig>,
        markets: Map<u16, Pubkey>,
    ) -> PositionReading {
        match *self {
            Protocol::MarginFi(p) => p.position_of(address, data, banks, markets),
            Protocol::Kamino(p) => p.position_of(address, data, banks, markets),
            Protocol::Drift(p) => p.position_of(address, data, banks, markets),
            Protocol::Solend(p) => p.position_of(address, data, banks, markets),
        }
    }

    fn name(&self) -> &'static str {
        match self {
            Protocol::MarginFi(p) => p.name(),
            Protocol::Kamino(p) => p.name(),
            Protocol::Drift(p) => p.name(),
            Protocol::Solend(p) => p.name(),
        }
    }

    fn status(&self) -> ImplStatus {
        match self {
            Protocol::MarginFi(p) => p.status(),
            Protocol::Kamino(p) => p.status(),
            Protocol::Drift(p) => p.status(),
            Protocol::Solend(p) => p.status(),
        }
    }

    fn bank_disc(&self) -> [u8; 8] {
        match self {
            Protocol::MarginFi(p) => p.bank_disc(),
            Protocol::Kamino(p) => p.bank_disc(),
            Protocol::Drift(p) => p.bank_disc(),
            Protocol::Solend(p) => p.bank_disc(),
        }
    }

    fn position_disc(&self) -> [u8; 8] {
        match self {
            Protocol::MarginFi(p) => p.position_disc(),
            Protocol::Kamino(p) => p.position_disc(),
            Protocol::Drift(p) => p.position_disc(),
            Protocol::Solend(p) => p.position_disc(),
        }
    }

    fn wants_positions(&self, book: &BankBook) -> bool {
        match self {
            Protocol::MarginFi(p) => p.wants_positions(book),
            Protocol::Kamino(p) => p.wants_positions(book),
            Protocol::Drift(p) => p.wants_positions(book),
            Protocol::Solend(p) => p.wants_positions(book),
        }
    }

    fn read_bank(&self, address: &Pubkey, data: &[u8]) -> BankReading {
        match self {
            Protocol::MarginFi(p) => p.read_bank(address, data),
            Protocol::Kamino(p) => p.read_bank(address, data),
            Protocol::Drift(p) => p.read_bank(address, data),
            Protocol::Solend(p) => p.read_bank(address, data),
        }
    }

    fn read_position(&self, address: &Pubkey, data: &[u8], book: &BankBook) -> Result<
        Option<RawPosition>,
        LayoutError,
    > {
        match self {
            Protocol::MarginFi(p) => p.read_position(address, data, book),
            Protocol::Kamino(p) => p.read_position(address, data, book),
            Protocol::Drift(p) => p.read_position(address, data, book),
            Protocol::Solend(p) => p.read_position(address, data, book),
        }
    }
}

/// Why there is no protocol.
#[derive(Clone, Copy, PartialEq, Eq, Structural, Debug)]
pub enum ProtocolError {
    /// No protocol of that name is known.
    Unsupported,
    /// The address of its program cannot be read.
    BadProgramId,
}

/// The protocol of the given name in a configuration, with its program at the
/// address that the text of it stands for.
pub open spec fn protocol_named(name: Seq<char>) -> Result<Protocol, ProtocolError> {
    if name == "marginfi"@ {
        match address_of("MFv2hWf31Z9kbCa1snEPYctwafyhdvnV7FZnsebVacA"@) {
            Some(program_id) => Ok(Protocol::MarginFi(MarginFi { program_id })),
            None => Err(ProtocolError::BadProgramId),
        }
    } else if name == "kamino"@ {
        match address_of("KLend2g3cP87fffoy8q1mQqGKjrxjC8boSyAYavgmjD"@) {
            Some(program_id) => Ok(Protocol::Kamino(Kamino { program_id })),
            None => Err(ProtocolError::BadProgramId),
        }
    } else if name == "drift"@ {
        match address_of("dRiftyHA39MWEi3m9aunc5MzRF1JYuBsbn6VPcn33UH"@) {
            Some(program_id) => Ok(Protocol::Drift(Drift { program_id })),
            None => Err(ProtocolError::BadProgramId),
        }
    } else if name == "solend"@ {
        match address_of("So1endDq2YkqhipRh3WViPa8hdiSpxWy6z3Z6tMCpAo"@) {
            Some(program_id) => Ok(Protocol::Solend(Solend { program_id })),
            None => Err(ProtocolError::BadProgramId),
        }
    } else {
        Err(ProtocolError::Unsupported)
    }
}

/// The protocol that the configuration names.
pub fn build(cfg: &Config) -> (out: Result<Protocol, ProtocolError>)
    ensures
        out == protocol_named(cfg.protocol@),
{
    let name: &str = cfg.protocol.as_str();
    if same(name, "marginfi") {
        match MarginFi::new() {
            Some(p) => Ok(Protocol::MarginFi(p)),
            None => Err(ProtocolError::BadProgramId),
        }
    } else if same(name, "kamino") {
        match Kamino::new() {
            Some(p) => Ok(Protocol::Kamino(p)),
            None => Err(ProtocolError::BadProgramId),
        }
    } else if same(name, "drift") {
        match Drift::new() {
            Some(p) => Ok(Protocol::Drift(p)),
            None => Err(ProtocolError::BadProgramId),
        }
    } else if same(name, "solend") {
        match Solend::new() {
            Some(p) => Ok(Protocol::Solend(p)),
            None => Err(ProtocolError::BadProgramId),
        }
    } else {
        Err(ProtocolError::Unsupported)
    }
}

/// Whether every holding is of more than nothing.
pub open spec fn all_positive(entries: Seq<Holding>) -> bool {
    forall|i: int| 0 <= i < entries.len() ==> (#[trigger] entries[i]).1.is_positive()
}

proof fn lemma_walk_positive(slot: spec_fn(int) -> SidesReading, n: int)
    requires
        forall|i: int|
            0 <= i < n ==> (#[trigger] slot(i) matches Ok(sides) ==> all_positive(sides.deposits)
                && all_positive(sides.borrows)),
    ensures
        walk(slot, n) matches Ok(sides) ==> all_positive(sides.deposits) && all_positive(
            sides.borrows,
        ),
    decreases n,
{
    if n > 0 {
        lemma_walk_positive(slot, n - 1);
        if let Ok(all) = walk(slot, n - 1) {
            if let Ok(more) = slot(n - 1) {
                let deposits = all.deposits + more.deposits;
                let borrows = all.borrows + more.borrows;
                assert forall|i: int| 0 <= i < deposits.len() implies (
                #[trigger] deposits[i]).1.is_positive() by {
                    if i >= all.deposits.len() {
                        assert(deposits[i] == more.deposits[i - all.deposits.len()]);
                    }
                }
                assert forall|i: int| 0 <= i < borrows.len() implies (
                #[trigger] borrows[i]).1.is_positive() by {
                    if i >= all.borrows.len() {
                        assert(borrows[i] == more.borrows[i - all.borrows.len()]);
                    }
                }
            }
        }
    }
}

/// Whatever protocol a position account belongs to, a position that is read
/// from it is that of the account, owes something, and holds no empty entry.
pub proof fn law_positions_owe(
    p: Protocol,
    address: Pubkey,
    data: Seq<u8>,
    banks: Map<Pubkey, BankConfig>,
    markets: Map<u16, Pubkey>,
)
    ensures
        p.position_of(address, data, banks, markets) matches Ok(Some(position)) ==> {
            &&& position.address == address
            &&& position.borrows.len() > 0
            &&& all_positive(position.deposits)
            &&& all_positive(position.borrows)
        },
{
    match p {
        Protocol::MarginFi(_) => {
            lemma_walk_positive(|slot: int| balance_slot(data, slot), 16);
        },
        Protocol::Kamino(_) => {
            let slots = |slot: int| obligation_slot(data, banks, slot);
            assert forall|i: int| 0 <= i < 13 implies (#[trigger] slots(i) matches Ok(sides)
                ==> all_positive(sides.deposits) && all_positive(sides.borrows)) by {
                kamino::lemma_slot_positive(data, banks, i);
            }
            lemma_walk_positive(slots, 13);
        },
        Protocol::Drift(_) => {
            let slots = |slot: int| spot_slot(data, markets, slot);
            assert forall|i: int| 0 <= i < 8 implies (#[trigger] slots(i) matches Ok(sides)
                ==> all_positive(sides.deposits) && all_positive(sides.borrows)) by {
                drift::lemma_slot_positive(data, markets, i);
            }
            lemma_walk_positive(slots, 8);
        },
        Protocol::Solend(_) => {},
    }
}

/// Every bank is kept under its own address.
pub proof fn law_banks_keep_their_address(p: Protocol, raw: Seq<RawAccount>, n: int, k: Pubkey)
    requires
        banks_from(&p, raw, n).contains_key(k),
    ensures
        banks_from(&p, raw, n)[k].address == k,
    decreases n,
{
    if n > 0 {
        if banks_from(&p, raw, n - 1).contains_key(k) {
            law_banks_keep_their_address(p, raw, n - 1, k);
        }
    }
}

/// Every index that a bank account gives out leads to a known bank.
pub proof fn law_markets_lead_to_banks(p: Protocol, raw: Seq<RawAccount>, n: int, index: u16)
    requires
        markets_from(&p, raw, n).contains_key(index),
    ensures
        banks_from(&p, raw, n).contains_key(markets_from(&p, raw, n)[index]),
    decreases n,
{
    if n > 0 {
        if markets_from(&p, raw, n - 1).contains_key(index) {
            law_markets_lead_to_banks(p, raw, n - 1, index);
        }
    }
}

/// A protocol that is pending gives no banks and no positions, whatever
/// accounts it is shown.
pub proof fn law_pending_reads_nothing(
    p: Protocol,
    raw: Seq<RawAccount>,
    banks: Map<Pubkey, BankConfig>,
    markets: Map<u16, Pubkey>,
    n: int,
)
    requires
        p.readiness() == ImplStatus::Pending,
    ensures
        banks_from(&p, raw, n) == Map::<Pubkey, BankConfig>::empty(),
        positions_from(&p, raw, banks, markets, n) == Seq::<PositionModel>::empty(),
    decreases n,
{
    if n > 0 {
        law_pending_reads_nothing(p, raw, banks, markets, n - 1);
    }
}

proof fn lemma_walk_empty(slot: spec_fn(int) -> SidesReading, n: int)
    requires
        forall|i: int|
            0 <= i < n ==> (#[trigger] slot(i) matches Ok(sides) ==> sides == no_sides()),
    ensures
        walk(slot, n) matches Ok(sides) ==> sides == no_sides(),
    decreases n,
{
    if n > 0 {
        lemma_walk_empty(slot, n - 1);
        if let (Ok(all), Ok(more)) = (walk(slot, n - 1), slot(n - 1)) {
            assert(all.deposits + more.deposits =~= Seq::<Holding>::empty());
            assert(all.borrows + more.borrows =~= Seq::<Holding>::empty());
        }
    }
}

/// Nothing is lost where position accounts are not fetched: there would be no
/// position in them.
pub proof fn law_unwanted_accounts_hold_no_position(
    p: Protocol,
    raw: Seq<RawAccount>,
    banks: Map<Pubkey, BankConfig>,
    markets: Map<u16, Pubkey>,
    n: int,
)
    requires
        !p.reads_positions(markets),
    ensures
        positions_from(&p, raw, banks, markets, n) == Seq::<PositionModel>::empty(),
    decreases n,
{
    if n > 0 {
        law_unwanted_accounts_hold_no_position(p, raw, banks, markets, n - 1);
        if p is Drift {
            let data = raw[n - 1].1@;
            let slots = |slot: int| spot_slot(data, markets, slot);
            assert(markets.dom() =~= Set::<u16>::empty());
            lemma_walk_empty(slots, 8);
        }
    }
}

/// Every position is what one of the accounts says.
pub proof fn law_positions_come_from_accounts(
    p: Protocol,
    raw: Seq<RawAccount>,
    banks: Map<Pubkey, BankConfig>,
    markets: Map<u16, Pubkey>,
    n: int,
    k: int,
)
    requires
        0 <= k < positions_from(&p, raw, banks, markets, n).len(),
    ensures
        exists|i: int|
            0 <= i < n && p.position_of(
                (#[trigger] raw[i]).0,
                raw[i].1@,
                banks,
                markets,
            ) == Ok::<Option<PositionModel>, LayoutError>(
                Some(positions_from(&p, raw, banks, markets, n)[k]),
            ),
    decreases n,
{
    if n > 0 {
        let shorter = positions_from(&p, raw, banks, markets, n - 1);
        if k < shorter.len() {
            law_positions_come_from_accounts(p, raw, banks, markets, n - 1, k);
            assert(positions_from(&p, raw, banks, markets, n)[k] == shorter[k]);
        } else {
            assert(p.position_of(raw[n - 1].0, raw[n - 1].1@, banks, markets) == Ok::<
                Option<PositionModel>,
                LayoutError,
            >(Some(positions_from(&p, raw, banks, markets, n)[k])));
        }
    }
}

/// Every bank is what one of the accounts says, the one with its address.
pub proof fn law_banks_come_from_accounts(p: Protocol, raw: Seq<RawAccount>, n: int, k: Pubkey)
    requires
        banks_from(&p, raw, n).contains_key(k),
    ensures
        exists|i: int|
            0 <= i < n && (#[trigger] raw[i]).0 == k && (p.bank_of(k, raw[i].1@) matches Ok(bank)
                && bank.config == banks_from(&p, raw, n)[k]),
    decreases n,
{
    if n > 0 {
        let last = p.bank_of(raw[n - 1].0, raw[n - 1].1@);
        if last is Ok && raw[n - 1].0 == k {
            assert(raw[n - 1].0 == k && last->Ok_0.config == banks_from(&p, raw, n)[k]);
        } else {
            law_banks_come_from_accounts(p, raw, n - 1, k);
        }
    }
}

/// Every account is either read or reported as one that cannot be read.
pub proof fn law_bank_accounts_are_accounted_for(p: Protocol, raw: Seq<RawAccount>, n: int)
    requires
        0 <= n,
    ensures
        bank_failures(&p, raw, n).len() + count(
            |i: int| p.bank_of(raw[i].0, raw[i].1@) is Ok,
            n,
        ) == n,
    decreases n,
{
    let read = |i: int| p.bank_of(raw[i].0, raw[i].1@) is Ok;
    if n > 0 {
        law_bank_accounts_are_accounted_for(p, raw, n - 1);
        lemma_count_same(read, |i: int| p.bank_of(raw[i].0, raw[i].1@) is Ok, n - 1);
        assert(read(n - 1) == (p.bank_of(raw[n - 1].0, raw[n - 1].1@) is Ok));
    }
}

/// What a slot holds on one side, where that is at most one entry.
pub open spec fn at_most_one(entry: Option<Holding>) -> Seq<Holding> {
    match entry {
        Some(h) => seq![h],
        None => Seq::empty(),
    }
}

/// Where every slot can be read and gives at most one entry to each side, the
/// sides are those entries in the order of the slots.
pub(crate) proof fn lemma_walk_collects(
    slot: spec_fn(int) -> SidesReading,
    deposit: spec_fn(int) -> Option<Holding>,
    borrow: spec_fn(int) -> Option<Holding>,
    n: nat,
)
    requires
        forall|i: int|
            0 <= i < n ==> #[trigger] slot(i) == Ok::<Sides, LayoutError>(
                Sides { deposits: at_most_one(deposit(i)), borrows: at_most_one(borrow(i)) },
            ),
    ensures
        walk(slot, n as int) == Ok::<Sides, LayoutError>(
            Sides {
                deposits: indices(n).filter_map(deposit),
                borrows: indices(n).filter_map(borrow),
            },
        ),
    decreases n,
{
    if n > 0 {
        let m = (n - 1) as nat;
        lemma_walk_collects(slot, deposit, borrow, m);
        assert(indices(n).drop_last() =~= indices(m));
        assert(indices(n).last() == m);
        assert(slot(m as int) is Ok);
        assert(indices(n).filter_map(deposit) =~= indices(m).filter_map(deposit) + at_most_one(
            deposit(m as int),
        ));
        assert(indices(n).filter_map(borrow) =~= indices(m).filter_map(borrow) + at_most_one(
            borrow(m as int),
        ));
    } else {
        assert(indices(0).filter_map(deposit) =~= Seq::<Holding>::empty());
        assert(indices(0).filter_map(borrow) =~= Seq::<Holding>::empty());
    }
}

/// Whether the error says that a field lies past the end of the data, and it
/// does.
pub open spec fn is_cut_short(e: LayoutError, data: Seq<u8>) -> bool {
    e matches LayoutError::Short { off, width, len } && len == data.len() && off + width
        > data.len()
}

/// Where slots fail only for fields past the end of the data, so do all slots
/// together; where none fails, neither do they.
pub(crate) proof fn lemma_walk_cut_short(
    slot: spec_fn(int) -> SidesReading,
    data: Seq<u8>,
    n: int,
)
    requires
        forall|i: int|
            0 <= i < n ==> (#[trigger] slot(i) matches Err(e) ==> is_cut_short(e, data)),
    ensures
        walk(slot, n) matches Err(e) ==> is_cut_short(e, data),
        (forall|i: int| 0 <= i < n ==> #[trigger] slot(i) is Ok) ==> walk(slot, n) is Ok,
    decreases n,
{
    if n > 0 {
        lemma_walk_cut_short(slot, data, n - 1);
        assert(slot(n - 1) matches Err(e) ==> is_cut_short(e, data));
    }
}

/// Each protocol reads its own accounts, and is known by its own name.
pub proof fn law_protocols_read_their_own_accounts(
    p: Protocol,
    address: Pubkey,
    data: Seq<u8>,
    banks: Map<Pubkey, BankConfig>,
    markets: Map<u16, Pubkey>,
)
    ensures
        match p {
            Protocol::MarginFi(q) => {
                &&& p.bank_of(address, data) == marginfi::bank_reading(address, data)
                &&& p.position_of(address, data, banks, markets) == marginfi::account_reading(
                    address,
                    data,
                )
                &&& p.address() == q.program_id
                &&& p.label() == "marginfi-v2"@
                &&& p.readiness() == ImplStatus::Live
                &&& p.bank_type() == "Bank"@
                &&& p.position_type() == "MarginfiAccount"@
                &&& p.reads_positions(markets)
            },
            Protocol::Kamino(q) => {
                &&& p.bank_of(address, data) == kamino::reserve_reading(address, data)
                &&& p.position_of(address, data, banks, markets) == kamino::obligation_reading(
                    address,
                    data,
                    banks,
                )
                &&& p.address() == q.program_id
                &&& p.label() == "kamino"@
                &&& p.readiness() == ImplStatus::Live
                &&& p.bank_type() == "Reserve"@
                &&& p.position_type() == "Obligation"@
                &&& p.reads_positions(markets)
            },
            Protocol::Drift(q) => {
                &&& p.bank_of(address, data) == drift::spot_market_reading(address, data)
                &&& p.position_of(address, data, banks, markets) == drift::user_reading(
                    address,
                    data,
                    markets,
                )
                &&& p.address() == q.program_id
                &&& p.label() == "drift"@
                &&& p.readiness() == ImplStatus::Live
                &&& p.bank_type() == "SpotMarket"@
                &&& p.position_type() == "User"@
                &&& p.reads_positions(markets) <==> markets != Map::<u16, Pubkey>::empty()
            },
            Protocol::Solend(q) => {
                &&& p.bank_of(address, data) is Err
                &&& p.position_of(address, data, banks, markets) is Err
                &&& p.address() == q.program_id
                &&& p.label() == "solend"@
                &&& p.readiness() == ImplStatus::Pending
                &&& !p.reads_positions(markets)
            },
        },
{
    if markets.is_empty() {
        assert(markets =~= Map::<u16, Pubkey>::empty());
    }
}

/// A configuration that names a protocol gets that protocol, at the address of
/// its program; a name that is none of the four is not supported.
pub proof fn law_protocol_is_the_one_named(name: Seq<char>)
    ensures
        protocol_named(name) matches Ok(p) ==> match p {
            Protocol::MarginFi(q) => name == "marginfi"@ && Some(q.program_id) == address_of(
                "MFv2hWf31Z9kbCa1snEPYctwafyhdvnV7FZnsebVacA"@,
            ),
            Protocol::Kamino(q) => name == "kamino"@ && Some(q.program_id) == address_of(
                "KLend2g3cP87fffoy8q1mQqGKjrxjC8boSyAYavgmjD"@,
            ),
            Protocol::Drift(q) => name == "drift"@ && Some(q.program_id) == address_of(
                "dRiftyHA39MWEi3m9aunc5MzRF1JYuBsbn6VPcn33UH"@,
            ),
            Protocol::Solend(q) => name == "solend"@ && Some(q.program_id) == address_of(
                "So1endDq2YkqhipRh3WViPa8hdiSpxWy6z3Z6tMCpAo"@,
            ),
        },
        protocol_named(name) == Err::<Protocol, ProtocolError>(ProtocolError::Unsupported) <==> name
            != "marginfi"@ && name != "kamino"@ && name != "drift"@ && name != "solend"@,
{
}

/// The bank kept under an address is what the last account of that address
/// that can be read says.
pub proof fn law_last_bank_is_kept(
    p: Protocol,
    raw: Seq<RawAccount>,
    n: int,
    i: int,
    bank: ParsedBank,
)
    requires
        0 <= i < n,
        p.bank_of(raw[i].0, raw[i].1@) == Ok::<ParsedBank, LayoutError>(bank),
        forall|j: int|
            i < j < n && (#[trigger] raw[j]).0 == raw[i].0 ==> p.bank_of(
                raw[j].0,
                raw[j].1@,
            ) is Err,
    ensures
        banks_from(&p, raw, n).contains_key(raw[i].0),
        banks_from(&p, raw, n)[raw[i].0] == bank.config,
    decreases n,
{
    if i < n - 1 {
        law_last_bank_is_kept(p, raw, n - 1, i, bank);
        if raw[n - 1].0 == raw[i].0 {
            assert(p.bank_of(raw[n - 1].0, raw[n - 1].1@) is Err);
        }
    }
}

/// A market index leads to the last account that can be read and gives it out.
pub proof fn law_last_market_is_kept(
    p: Protocol,
    raw: Seq<RawAccount>,
    n: int,
    i: int,
    index: u16,
)
    requires
        0 <= i < n,
        p.bank_of(raw[i].0, raw[i].1@) matches Ok(bank) && bank.market_index == Some(index),
        forall|j: int|
            i < j < n && (p.bank_of((#[trigger] raw[j]).0, raw[j].1@) matches Ok(bank)
                && bank.market_index == Some(index)) ==> false,
    ensures
        markets_from(&p, raw, n).contains_key(index),
        markets_from(&p, raw, n)[index] == raw[i].0,
    decreases n,
{
    if i < n - 1 {
        law_last_market_is_kept(p, raw, n - 1, i, index);
        assert(raw[n - 1].0 == raw[n - 1].0);
    }
}

/// What loading position accounts gives: a position for each account that says
/// so, in their order, and the address and the error of each that cannot be
/// read.
pub proof fn law_positions_are_those_of_the_accounts(
    load: PositionLoad,
    p: Protocol,
    raw: Seq<RawAccount>,
    book: BankBook,
)
    requires
        is_position_load(load, p, raw, book),
    ensures
        models(load.positions@) == raw.filter_map(
            |a: RawAccount|
                match p.position_of(a.0, a.1@, book.banks@, book.markets@) {
                    Ok(position) => position,
                    Err(_) => None,
                },
        ),
        load.failed@ == raw.filter_map(
            |a: RawAccount|
                match p.position_of(a.0, a.1@, book.banks@, book.markets@) {
                    Ok(_) => None,
                    Err(e) => Some((a.0, e)),
                },
        ),
{
    lemma_positions_from(p, raw, book.banks@, book.markets@, raw.len() as int);
    assert(raw.take(raw.len() as int) =~= raw);
}

proof fn lemma_positions_from(
    p: Protocol,
    raw: Seq<RawAccount>,
    banks: Map<Pubkey, BankConfig>,
    markets: Map<u16, Pubkey>,
    n: int,
)
    requires
        0 <= n <= raw.len(),
    ensures
        positions_from(&p, raw, banks, markets, n) == raw.take(n).filter_map(
            |a: RawAccount|
                match p.position_of(a.0, a.1@, banks, markets) {
                    Ok(position) => position,
                    Err(_) => None,
                },
        ),
        position_failures(&p, raw, banks, markets, n) == raw.take(n).filter_map(
            |a: RawAccount|
                match p.position_of(a.0, a.1@, banks, markets) {
                    Ok(_) => None,
                    Err(e) => Some((a.0, e)),
                },
        ),
    decreases n,
{
    let good = |a: RawAccount|
        match p.position_of(a.0, a.1@, banks, markets) {
            Ok(position) => position,
            Err(_) => None,
        };
    let bad = |a: RawAccount|
        match p.position_of(a.0, a.1@, banks, markets) {
            Ok(_) => None,
            Err(e) => Some((a.0, e)),
        };
    if n > 0 {
        lemma_positions_from(p, raw, banks, markets, n - 1);
        raw.lemma_filter_map_take_succ(good, n - 1);
        raw.lemma_filter_map_take_succ(bad, n - 1);
        assert(positions_from(&p, raw, banks, markets, n) =~= raw.take(n).filter_map(good));
        assert(position_failures(&p, raw, banks, markets, n) =~= raw.take(n).filter_map(bad));
    } else {
        assert(raw.take(0).filter_map(good) =~= Seq::<PositionModel>::empty());
        assert(raw.take(0).filter_map(bad) =~= Seq::<(Pubkey, LayoutError)>::empty());
    }
}

/// What loading bank accounts reports: the address and the error of each that
/// cannot be read, and the address and the number of each whose oracle setup
/// is not known, both in the order of the accounts.
pub proof fn law_bank_reports_are_those_of_the_accounts(
    load: BankLoad,
    p: Protocol,
    raw: Seq<RawAccount>,
)
    requires
        is_bank_load(load, p, raw),
    ensures
        load.failed@ == raw.filter_map(
            |a: RawAccount|
                match p.bank_of(a.0, a.1@) {
                    Ok(_) => None,
                    Err(e) => Some((a.0, e)),
                },
        ),
        load.odd_oracle_setups@ == raw.filter_map(
            |a: RawAccount|
                match p.bank_of(a.0, a.1@) {
                    Ok(bank) => match bank.odd_oracle_setup {
                        Some(setup) => Some((a.0, setup)),
                        None => None,
                    },
                    Err(_) => None,
                },
        ),
{
    lemma_bank_reports(p, raw, raw.len() as int);
    assert(raw.take(raw.len() as int) =~= raw);
}

proof fn lemma_bank_reports(p: Protocol, raw: Seq<RawAccount>, n: int)
    requires
        0 <= n <= raw.len(),
    ensures
        bank_failures(&p, raw, n) == raw.take(n).filter_map(
            |a: RawAccount|
                match p.bank_of(a.0, a.1@) {
                    Ok(_) => None,
                    Err(e) => Some((a.0, e)),
                },
        ),
        odd_setups(&p, raw, n) == raw.take(n).filter_map(
            |a: RawAccount|
                match p.bank_of(a.0, a.1@) {
                    Ok(bank) => match bank.odd_oracle_setup {
                        Some(setup) => Some((a.0, setup)),
                        None => None,
                    },
                    Err(_) => None,
                },
        ),
    decreases n,
{
    let bad = |a: RawAccount|
        match p.bank_of(a.0, a.1@) {
            Ok(_) => None,
            Err(e) => Some((a.0, e)),
        };
    let odd = |a: RawAccount|
        match p.bank_of(a.0, a.1@) {
            Ok(bank) => match bank.odd_oracle_setup {
                Some(setup) => Some((a.0, setup)),
                None => None,
            },
            Err(_) => None,
        };
    if n > 0 {
        lemma_bank_reports(p, raw, n - 1);
        raw.lemma_filter_map_take_succ(bad, n - 1);
        raw.lemma_filter_map_take_succ(odd, n - 1);
        assert(bank_failures(&p, raw, n) =~= raw.take(n).filter_map(bad));
        assert(odd_setups(&p, raw, n) =~= raw.take(n).filter_map(odd));
    } else {
        assert(raw.take(0).filter_map(bad) =~= Seq::<(Pubkey, LayoutError)>::empty());
        assert(raw.take(0).filter_map(odd) =~= Seq::<(Pubkey, u8)>::empty());
    }
}

} // verus!
