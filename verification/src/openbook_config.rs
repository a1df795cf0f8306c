//! The simulation configuration: as read (addresses as base58 strings, keys as
//! bytes) and with every address parsed.
use crate::chain_data::Pubkey;
use solana_sdk::signer::Signer;
use std::str::FromStr;
use vstd::prelude::*;

verus! {

/// A program named in the configuration file.
#[derive(Clone, Debug)]
pub struct ProgramData {
    pub name: String,
    pub program_id: String,
}

#[derive(Clone, Debug)]
pub struct TokenAccountData {
    pub mint: String,
    pub token_account: String,
}

#[derive(Clone, Debug)]
pub struct OpenOrders {
    pub market: String,
    pub open_orders: String,
}

#[derive(Clone, Debug)]
pub struct User {
    pub secret: Vec<u8>,
    pub token_data: Vec<TokenAccountData>,
    pub open_orders: Vec<OpenOrders>,
}

#[derive(Clone, Debug)]
pub struct Market {
    pub name: String,
    pub admin: Vec<u8>,
    pub market_pk: String,
    pub oracle: String,
    pub asks: String,
    pub bids: String,
    pub event_queue: String,
    pub base_vault: String,
    pub quote_vault: String,
    pub base_mint: String,
    pub quote_mint: String,
    pub market_index: usize,
    pub price: u64,
}

/// The configuration file's contents.
#[derive(Clone, Debug)]
pub struct Config {
    pub programs: Vec<ProgramData>,
    pub users: Vec<User>,
    pub mints: Vec<String>,
    pub markets: Vec<Market>,
}

/// The bytes of an ed25519 key pair: the secret key, then the public key.
#[derive(Clone, Debug)]
pub struct KeypairBytes {
    pub bytes: Vec<u8>,
}

impl KeypairBytes {
    /// The public key: the last 32 of the 64 bytes.
    pub open spec fn spec_pubkey(&self) -> Seq<u8> {
        self.bytes@.subrange(32, 64)
    }

    /// The public key of a well-formed key pair: its last 32 bytes (the
    /// bytes that key pair parsing checks against the secret key).
    pub fn pubkey(&self) -> (r: Pubkey)
        requires
            self.bytes@.len() == 64,
        ensures
            r@ == self.spec_pubkey(),
    {
        let mut r: Pubkey = [0u8; 32];
        let mut i: usize = 0;
        while i < 32
            invariant
                i <= 32,
                self.bytes@.len() == 64,
                forall|j: int| 0 <= j < i ==> r@[j] == self.bytes@[j + 32],
            decreases 32 - i,
        {
            r[i] = self.bytes[i + 32];
            i = i + 1;
        }
        assert(r@ =~= self.spec_pubkey());
        r
    }
}

#[derive(Clone, Debug)]
pub struct Obv2ProgramData {
    pub name: String,
    pub program_id: Pubkey,
}

#[derive(Clone, Debug)]
pub struct Obv2TokenAccountData {
    pub mint: Pubkey,
    pub token_account: Pubkey,
}

#[derive(Clone, Debug)]
pub struct Obv2OpenOrders {
    pub market: Pubkey,
    pub open_orders: Pubkey,
}

#[derive(Clone, Debug)]
pub struct Obv2User {
    pub secret: KeypairBytes,
    pub token_data: Vec<Obv2TokenAccountData>,
    pub open_orders: Vec<Obv2OpenOrders>,
}

#[derive(Clone, Debug)]
pub struct Obv2Market {
    pub name: String,
    pub admin: KeypairBytes,
    pub market_pk: Pubkey,
    pub oracle: Pubkey,
    pub asks: Pubkey,
    pub bids: Pubkey,
    pub event_queue: Pubkey,
    pub base_vault: Pubkey,
    pub quote_vault: Pubkey,
    pub base_mint: Pubkey,
    pub quote_mint: Pubkey,
    pub market_index: usize,
    pub price: u64,
}

/// The configuration with addresses parsed.
#[derive(Clone, Debug)]
pub struct Obv2Config {
    pub programs: Vec<Obv2ProgramData>,
    pub users: Vec<Obv2User>,
    pub mints: Vec<Pubkey>,
    pub markets: Vec<Obv2Market>,
}

/// The address that `solana_sdk::pubkey::Pubkey::from_str` parses from `s`.
pub uninterp spec fn address_from_str(s: Seq<char>) -> Option<[u8; 32]>;

/// Whether `solana_sdk::signature::Keypair::from_bytes` accepts `bytes`.
pub uninterp spec fn keypair_bytes_valid(bytes: Seq<u8>) -> bool;

/// `solana_sdk::pubkey::Pubkey::from_str`: parses a base58 address.
/// Claimed: the result depends on `s` alone.
#[verifier::external_body]
fn parse_address(s: &str) -> (r: Option<[u8; 32]>)
    ensures
        r == address_from_str(s@),
{
    match solana_sdk::pubkey::Pubkey::from_str(s) {
        Ok(p) => Some(p.to_bytes()),
        Err(_) => None,
    }
}

/// `solana_sdk::signature::Keypair::from_bytes`: whether `bytes` are a key
/// pair. Claimed: the answer depends on `bytes` alone, and bytes that are
/// accepted are 64 long (shorter ones are refused, and the public half
/// must be exactly 32 bytes).
#[verifier::external_body]
fn keypair_accepts(bytes: &[u8]) -> (r: bool)
    ensures
        r == keypair_bytes_valid(bytes@),
        r ==> bytes@.len() == 64,
{
    solana_sdk::signature::Keypair::from_bytes(bytes).is_ok()
}

/// The ed25519 signature of `message` by the key pair held in `keypair`.
pub uninterp spec fn ed25519_signature(keypair: Seq<u8>, message: Seq<u8>) -> [u8; 64];

/// `solana_sdk::signer::Signer::sign_message` of the key pair read from
/// `keypair` (which `Keypair::from_bytes` accepts, as required). Claimed:
/// the signature depends on the key pair and the message alone (ed25519
/// signing is deterministic).
#[verifier::external_body]
fn sign_with(keypair: &[u8], message: &[u8]) -> (r: [u8; 64])
    requires
        keypair_bytes_valid(keypair@),
    ensures
        r == ed25519_signature(keypair@, message@),
{
    solana_sdk::signature::Keypair::from_bytes(keypair).unwrap().sign_message(message).into()
}

/// Why a user could not sign.
#[derive(Clone, Copy, Debug, PartialEq, Eq, Structural)]
pub enum SignerError {
    /// The user's secret is not a key pair.
    InvalidKeypair,
}

/// Parses a base58 address; `None` where it is not one.
pub fn try_convert_to_pk(key: &String) -> (r: Option<Pubkey>)
    ensures
        r == address_from_str(key@),
{
    parse_address(key.as_str())
}

/// Parses a base58 address that is known to parse.
pub fn convert_to_pk(key: &String) -> (r: Pubkey)
    requires
        address_from_str(key@) is Some,
    ensures
        r == address_from_str(key@)->0,
{
    match parse_address(key.as_str()) {
        Some(pk) => pk,
        None => {
            assert(false);
            [0u8; 32]
        },
    }
}

/// Whether `secret` are the bytes of a key pair.
pub fn is_keypair(secret: &Vec<u8>) -> (r: bool)
    ensures
        r == keypair_bytes_valid(secret@),
        r ==> secret@.len() == 64,
{
    keypair_accepts(secret.as_slice())
}

/// The key pair held in `secret`, which are known to be the bytes of one.
pub fn get_keypair(secret: &Vec<u8>) -> (r: KeypairBytes)
    requires
        keypair_bytes_valid(secret@),
    ensures
        r.bytes@ == secret@,
        r.bytes@.len() == 64,
{
    let ok = keypair_accepts(secret.as_slice());
    assert(ok);
    KeypairBytes { bytes: secret.clone() }
}

/// The address parsed from `s`.
pub open spec fn parsed(s: String) -> Pubkey {
    address_from_str(s@)->0
}

pub open spec fn parses(s: String) -> bool {
    address_from_str(s@) is Some
}

pub open spec fn market_parses(m: Market) -> bool {
    &&& keypair_bytes_valid(m.admin@)
    &&& parses(m.market_pk) && parses(m.oracle) && parses(m.asks) && parses(m.bids)
    &&& parses(m.event_queue) && parses(m.base_vault) && parses(m.quote_vault)
    &&& parses(m.base_mint) && parses(m.quote_mint)
}

pub open spec fn market_converted(m: Market, o: Obv2Market) -> bool {
    &&& o.name == m.name
    &&& o.admin.bytes@ == m.admin@
    &&& o.market_pk == parsed(m.market_pk)
    &&& o.oracle == parsed(m.oracle)
    &&& o.asks == parsed(m.asks)
    &&& o.bids == parsed(m.bids)
    &&& o.event_queue == parsed(m.event_queue)
    &&& o.base_vault == parsed(m.base_vault)
    &&& o.quote_vault == parsed(m.quote_vault)
    &&& o.base_mint == parsed(m.base_mint)
    &&& o.quote_mint == parsed(m.quote_mint)
    &&& o.market_index == m.market_index
    &&& o.price == m.price
}

pub open spec fn user_parses(u: User) -> bool {
    &&& keypair_bytes_valid(u.secret@)
    &&& forall|i: int| 0 <= i < u.open_orders@.len() ==> parses(#[trigger] u.open_orders@[i].market)
        && parses(u.open_orders@[i].open_orders)
    &&& forall|i: int| 0 <= i < u.token_data@.len() ==> parses(#[trigger] u.token_data@[i].mint)
        && parses(u.token_data@[i].token_account)
}

pub open spec fn user_converted(u: User, o: Obv2User) -> bool {
    &&& o.secret.bytes@ == u.secret@
    &&& o.open_orders@.len() == u.open_orders@.len()
    &&& forall|i: int|
        0 <= i < u.open_orders@.len() ==> (#[trigger] o.open_orders@[i]).market == parsed(
            u.open_orders@[i].market,
        ) && o.open_orders@[i].open_orders == parsed(u.open_orders@[i].open_orders)
    &&& o.token_data@.len() == u.token_data@.len()
    &&& forall|i: int|
        0 <= i < u.token_data@.len() ==> (#[trigger] o.token_data@[i]).mint == parsed(
            u.token_data@[i].mint,
        ) && o.token_data@[i].token_account == parsed(u.token_data@[i].token_account)
}

/// Every address of the configuration parses and every key is a key pair.
pub open spec fn config_parses(c: Config) -> bool {
    &&& forall|i: int| 0 <= i < c.programs@.len() ==> parses(#[trigger] c.programs@[i].program_id)
    &&& forall|i: int| 0 <= i < c.users@.len() ==> user_parses(#[trigger] c.users@[i])
    &&& forall|i: int| 0 <= i < c.mints@.len() ==> parses(#[trigger] c.mints@[i])
    &&& forall|i: int| 0 <= i < c.markets@.len() ==> market_parses(#[trigger] c.markets@[i])
}

/// `o` is `c` with every address parsed.
pub open spec fn config_converted(c: Config, o: Obv2Config) -> bool {
    &&& o.programs@.len() == c.programs@.len()
    &&& forall|i: int|
        0 <= i < c.programs@.len() ==> (#[trigger] o.programs@[i]).name == c.programs@[i].name
            && o.programs@[i].program_id == parsed(c.programs@[i].program_id)
    &&& o.users@.len() == c.users@.len()
    &&& forall|i: int| 0 <= i < c.users@.len() ==> user_converted(c.users@[i], #[trigger] o.users@[i])
    &&& o.mints@.len() == c.mints@.len()
    &&& forall|i: int| 0 <= i < c.mints@.len() ==> #[trigger] o.mints@[i] == parsed(c.mints@[i])
    &&& o.markets@.len() == c.markets@.len()
    &&& forall|i: int|
        0 <= i < c.markets@.len() ==> market_converted(c.markets@[i], #[trigger] o.markets@[i])
}

impl Obv2Market {
    /// The market with its addresses parsed and its admin key pair read.
    pub fn from_market(value: &Market) -> (r: Obv2Market)
        requires
            market_parses(*value),
        ensures
            market_converted(*value, r),
    {
        Obv2Market {
            name: value.name.clone(),
            admin: get_keypair(&value.admin),
            market_pk: convert_to_pk(&value.market_pk),
            oracle: convert_to_pk(&value.oracle),
            asks: convert_to_pk(&value.asks),
            bids: convert_to_pk(&value.bids),
            event_queue: convert_to_pk(&value.event_queue),
            base_vault: convert_to_pk(&value.base_vault),
            quote_vault: convert_to_pk(&value.quote_vault),
            base_mint: convert_to_pk(&value.base_mint),
            quote_mint: convert_to_pk(&value.quote_mint),
            market_index: value.market_index,
            price: value.price,
        }
    }

    pub fn market_parses(value: &Market) -> (r: bool)
        ensures
            r == market_parses(*value),
    {
        is_keypair(&value.admin) && try_convert_to_pk(&value.market_pk).is_some()
            && try_convert_to_pk(&value.oracle).is_some() && try_convert_to_pk(&value.asks).is_some()
            && try_convert_to_pk(&value.bids).is_some() && try_convert_to_pk(
            &value.event_queue,
        ).is_some() && try_convert_to_pk(&value.base_vault).is_some() && try_convert_to_pk(
            &value.quote_vault,
        ).is_some() && try_convert_to_pk(&value.base_mint).is_some() && try_convert_to_pk(
            &value.quote_mint,
        ).is_some()
    }
}

impl Obv2ProgramData {
    pub fn from_program(value: &ProgramData) -> (r: Obv2ProgramData)
        requires
            parses(value.program_id),
        ensures
            r.name == value.name,
            r.program_id == parsed(value.program_id),
    {
        Obv2ProgramData { name: value.name.clone(), program_id: convert_to_pk(&value.program_id) }
    }
}

impl Obv2User {
    /// The user with its key pair read and its addresses parsed.
    pub fn from_user(value: &User) -> (r: Obv2User)
        requires
            user_parses(*value),
        ensures
            user_converted(*value, r),
    {
        let secret = get_keypair(&value.secret);
        let mut open_orders: Vec<Obv2OpenOrders> = Vec::new();
        let mut i: usize = 0;
        while i < value.open_orders.len()
            invariant
                user_parses(*value),
                i <= value.open_orders@.len(),
                open_orders@.len() == i,
                forall|j: int|
                    0 <= j < i ==> (#[trigger] open_orders@[j]).market == parsed(
                        value.open_orders@[j].market,
                    ) && open_orders@[j].open_orders == parsed(value.open_orders@[j].open_orders),
            decreases value.open_orders@.len() - i,
        {
            let o = &value.open_orders[i];
            proof {
                assert(parses(value.open_orders@[i as int].market));
            }
            open_orders.push(
                Obv2OpenOrders {
                    market: convert_to_pk(&o.market),
                    open_orders: convert_to_pk(&o.open_orders),
                },
            );
            i = i + 1;
        }
        let mut token_data: Vec<Obv2TokenAccountData> = Vec::new();
        let mut i: usize = 0;
        while i < value.token_data.len()
            invariant
                user_parses(*value),
                i <= value.token_data@.len(),
                token_data@.len() == i,
                forall|j: int|
                    0 <= j < i ==> (#[trigger] token_data@[j]).mint == parsed(
                        value.token_data@[j].mint,
                    ) && token_data@[j].token_account == parsed(value.token_data@[j].token_account),
            decreases value.token_data@.len() - i,
        {
            let t = &value.token_data[i];
            proof {
                assert(parses(value.token_data@[i as int].mint));
            }
            token_data.push(
                Obv2TokenAccountData {
                    mint: convert_to_pk(&t.mint),
                    token_account: convert_to_pk(&t.token_account),
                },
            );
            i = i + 1;
        }
        Obv2User { secret, token_data, open_orders }
    }

    pub fn user_parses(value: &User) -> (r: bool)
        ensures
            r == user_parses(*value),
    {
        if !is_keypair(&value.secret) {
            return false;
        }
        let mut i: usize = 0;
        while i < value.open_orders.len()
            invariant
                i <= value.open_orders@.len(),
                forall|j: int|
                    0 <= j < i ==> parses(#[trigger] value.open_orders@[j].market) && parses(
                        value.open_orders@[j].open_orders,
                    ),
            decreases value.open_orders@.len() - i,
        {
            if try_convert_to_pk(&value.open_orders[i].market).is_none() || try_convert_to_pk(
                &value.open_orders[i].open_orders,
            ).is_none() {
                return false;
            }
            i = i + 1;
        }
        let mut i: usize = 0;
        while i < value.token_data.len()
            invariant
                i <= value.token_data@.len(),
                forall|j: int|
                    0 <= j < i ==> parses(#[trigger] value.token_data@[j].mint) && parses(
                        value.token_data@[j].token_account,
                    ),
            decreases value.token_data@.len() - i,
        {
            if try_convert_to_pk(&value.token_data[i].mint).is_none() || try_convert_to_pk(
                &value.token_data[i].token_account,
            ).is_none() {
                return false;
            }
            i = i + 1;
        }
        true
    }
}

impl Obv2User {
    /// The user's public key: the public half of its key pair.
    pub fn try_pubkey(&self) -> (r: Pubkey)
        requires
            self.secret.bytes@.len() == 64,
        ensures
            r@ == self.secret.spec_pubkey(),
    {
        self.secret.pubkey()
    }

    /// The user's signature of `message`; an error when the user's secret
    /// is not a key pair.
    pub fn try_sign_message(&self, message: &[u8]) -> (r: Result<[u8; 64], SignerError>)
        ensures
            keypair_bytes_valid(self.secret.bytes@) ==> r == Ok::<[u8; 64], SignerError>(
                ed25519_signature(self.secret.bytes@, message@),
            ),
            !keypair_bytes_valid(self.secret.bytes@) ==> r == Err::<[u8; 64], SignerError>(
                SignerError::InvalidKeypair,
            ),
    {
        if is_keypair(&self.secret.bytes) {
            Ok(sign_with(self.secret.bytes.as_slice(), message))
        } else {
            Err(SignerError::InvalidKeypair)
        }
    }

    /// Whether signing involves an interactive step: a user reports that
    /// it does.
    pub fn is_interactive(&self) -> (r: bool)
        ensures
            r,
    {
        true
    }
}

impl Obv2Config {
    /// The configuration with every address parsed and every key pair read;
    /// the configuration is known to parse.
    pub fn from_config(value: &Config) -> (r: Obv2Config)
        requires
            config_parses(*value),
        ensures
            config_converted(*value, r),
    {
        let mut programs: Vec<Obv2ProgramData> = Vec::new();
        let mut i: usize = 0;
        while i < value.programs.len()
            invariant
                config_parses(*value),
                i <= value.programs@.len(),
                programs@.len() == i,
                forall|j: int|
                    0 <= j < i ==> (#[trigger] programs@[j]).name == value.programs@[j].name
                        && programs@[j].program_id == parsed(value.programs@[j].program_id),
            decreases value.programs@.len() - i,
        {
            proof {
                assert(parses(value.programs@[i as int].program_id));
            }
            programs.push(Obv2ProgramData::from_program(&value.programs[i]));
            i = i + 1;
        }
        let mut users: Vec<Obv2User> = Vec::new();
        let mut i: usize = 0;
        while i < value.users.len()
            invariant
                config_parses(*value),
                i <= value.users@.len(),
                users@.len() == i,
                forall|j: int| 0 <= j < i ==> user_converted(value.users@[j], #[trigger] users@[j]),
            decreases value.users@.len() - i,
        {
            proof {
                assert(user_parses(value.users@[i as int]));
            }
            users.push(Obv2User::from_user(&value.users[i]));
            i = i + 1;
        }
        let mut mints: Vec<Pubkey> = Vec::new();
        let mut i: usize = 0;
        while i < value.mints.len()
            invariant
                config_parses(*value),
                i <= value.mints@.len(),
                mints@.len() == i,
                forall|j: int| 0 <= j < i ==> #[trigger] mints@[j] == parsed(value.mints@[j]),
            decreases value.mints@.len() - i,
        {
            proof {
                assert(parses(value.mints@[i as int]));
            }
            mints.push(convert_to_pk(&value.mints[i]));
            i = i + 1;
        }
        let mut markets: Vec<Obv2Market> = Vec::new();
        let mut i: usize = 0;
        while i < value.markets.len()
            invariant
                config_parses(*value),
                i <= value.markets@.len(),
                markets@.len() == i,
                forall|j: int|
                    0 <= j < i ==> market_converted(value.markets@[j], #[trigger] markets@[j]),
            decreases value.markets@.len() - i,
        {
            proof {
                assert(market_parses(value.markets@[i as int]));
            }
            markets.push(Obv2Market::from_market(&value.markets[i]));
            i = i + 1;
        }
        Obv2Config { programs, users, mints, markets }
    }

    /// Whether every address of `value` parses and every key is a key pair.
    pub fn config_parses(value: &Config) -> (r: bool)
        ensures
            r == config_parses(*value),
    {
        let mut i: usize = 0;
        while i < value.programs.len()
            invariant
                i <= value.programs@.len(),
                forall|j: int| 0 <= j < i ==> parses(#[trigger] value.programs@[j].program_id),
            decreases value.programs@.len() - i,
        {
            if try_convert_to_pk(&value.programs[i].program_id).is_none() {
                return false;
            }
            i = i + 1;
        }
        let mut i: usize = 0;
        while i < value.users.len()
            invariant
                i <= value.users@.len(),
                forall|j: int| 0 <= j < i ==> user_parses(#[trigger] value.users@[j]),
            decreases value.users@.len() - i,
        {
            if !Obv2User::user_parses(&value.users[i]) {
                return false;
            }
            i = i + 1;
        }
        let mut i: usize = 0;
        while i < value.mints.len()
            invariant
                i <= value.mints@.len(),
                forall|j: int| 0 <= j < i ==> parses(#[trigger] value.mints@[j]),
            decreases value.mints@.len() - i,
        {
            if try_convert_to_pk(&value.mints[i]).is_none() {
                return false;
            }
            i = i + 1;
        }
        let mut i: usize = 0;
        while i < value.markets.len()
            invariant
                i <= value.markets@.len(),
                forall|j: int| 0 <= j < i ==> market_parses(#[trigger] value.markets@[j]),
            decreases value.markets@.len() - i,
        {
            if !Obv2Market::market_parses(&value.markets[i]) {
                return false;
            }
            i = i + 1;
        }
        true
    }

    /// The parsed configuration; `None` where some address does not parse or
    /// some key is not a key pair.
    pub fn try_from_config(value: &Config) -> (r: Option<Obv2Config>)
        ensures
            r is Some == config_parses(*value),
            r matches Some(o) ==> config_converted(*value, o),
    {
        if Self::config_parses(value) {
            Some(Self::from_config(value))
        } else {
            None
        }
    }

    /// The id of the first program named `name`.
    pub fn program_id(&self, name: &str) -> (r: Option<Pubkey>)
        ensures
            match r {
                Some(id) => exists|i: int|
                    0 <= i < self.programs@.len() && self.programs@[i].name@ == name@
                        && self.programs@[i].program_id == id && forall|j: int|
                        0 <= j < i ==> self.programs@[j].name@ != name@,
                None => forall|i: int|
                    0 <= i < self.programs@.len() ==> self.programs@[i].name@ != name@,
            },
    {
        let target = name.to_owned();
        let mut i: usize = 0;
        while i < self.programs.len()
            invariant
                i <= self.programs@.len(),
                target@ == name@,
                forall|j: int| 0 <= j < i ==> self.programs@[j].name@ != name@,
            decreases self.programs@.len() - i,
        {
            if self.programs[i].name == target {
                assert(self.programs@[i as int].name@ == name@);
                return Some(self.programs[i].program_id);
            }
            i = i + 1;
        }
        None
    }
}

/// Why a configuration cannot be used.
#[derive(Clone, Copy, Debug, PartialEq, Eq, Structural)]
pub enum ConfigError {
    NoPayers,
    NoMarkets,
}

/// A configuration needs users to pay and markets to quote on.
pub fn check_config(config: &Config) -> (r: Result<(), ConfigError>)
    ensures
        r == (if config.users@.len() == 0 {
            Err(ConfigError::NoPayers)
        } else if config.markets@.len() == 0 {
            Err(ConfigError::NoMarkets)
        } else {
            Ok(())
        }),
{
    if config.users.len() == 0 {
        return Err(ConfigError::NoPayers);
    }
    if config.markets.len() == 0 {
        return Err(ConfigError::NoMarkets);
    }
    Ok(())
}

} // verus!
