use openbook_simulation::feed::pubkey_to_string;
use openbook_simulation::openbook_config::{
    check_config, convert_to_pk, get_keypair, is_keypair, try_convert_to_pk, Config,
    ConfigError, KeypairBytes, Market, Obv2Config, Obv2User, OpenOrders, ProgramData,
    SignerError, TokenAccountData, User,
};
use solana_sdk::signature::Keypair;
use solana_sdk::signer::Signer;

fn address(k: u8) -> String {
    solana_sdk::pubkey::Pubkey::new_from_array([k; 32]).to_string()
}

fn market(name: &str, k: u8) -> Market {
    Market {
        name: name.to_string(),
        admin: Keypair::new().to_bytes().to_vec(),
        market_pk: address(k),
        oracle: address(k + 1),
        asks: address(k + 2),
        bids: address(k + 3),
        event_queue: address(k + 4),
        base_vault: address(k + 5),
        quote_vault: address(k + 6),
        base_mint: address(k + 7),
        quote_mint: address(k + 8),
        market_index: 0,
        price: 1_000,
    }
}

fn user(k: u8) -> User {
    User {
        secret: Keypair::new().to_bytes().to_vec(),
        token_data: vec![TokenAccountData { mint: address(k + 7), token_account: address(200) }],
        open_orders: vec![OpenOrders { market: address(k), open_orders: address(201) }],
    }
}

fn config() -> Config {
    Config {
        programs: vec![
            ProgramData { name: "openbook_v2".to_string(), program_id: address(100) },
            ProgramData { name: "other".to_string(), program_id: address(101) },
        ],
        users: vec![user(10)],
        mints: vec![address(17), address(18)],
        markets: vec![market("SOL/USDC", 10)],
    }
}

#[test]
fn base58_addresses_parse() {
    assert_eq!(try_convert_to_pk(&"11111111111111111111111111111111".to_string()), Some([0u8; 32]));
    assert_eq!(convert_to_pk(&address(7)), [7u8; 32]);
    assert_eq!(try_convert_to_pk(&"not an address".to_string()), None);
    assert_eq!(try_convert_to_pk(&String::new()), None);
}

#[test]
fn addresses_print_in_base58() {
    assert_eq!(pubkey_to_string(&[0u8; 32]), "11111111111111111111111111111111");
    let pk = [42u8; 32];
    assert_eq!(try_convert_to_pk(&pubkey_to_string(&pk)), Some(pk));
}

#[test]
fn key_pairs_are_checked() {
    let kp = Keypair::new();
    let bytes = kp.to_bytes().to_vec();
    assert!(is_keypair(&bytes));
    let k = get_keypair(&bytes);
    assert_eq!(k.bytes, bytes);
    assert_eq!(k.pubkey(), kp.pubkey().to_bytes());
    assert!(!is_keypair(&vec![1u8; 63]));
    let mut longer = bytes.clone();
    longer.push(0);
    assert!(!is_keypair(&longer));
    let mut wrong_public_half = bytes.clone();
    wrong_public_half[40] ^= 0xff;
    assert!(!is_keypair(&wrong_public_half));
}

#[test]
fn configuration_converts() {
    let c = config();
    assert_eq!(check_config(&c), Ok(()));
    let o = Obv2Config::try_from_config(&c).expect("configuration parses");
    assert_eq!(o.programs.len(), 2);
    assert_eq!(o.programs[0].program_id, [100u8; 32]);
    assert_eq!(o.mints, vec![[17u8; 32], [18u8; 32]]);
    assert_eq!(o.markets[0].name, "SOL/USDC");
    assert_eq!(o.markets[0].event_queue, [14u8; 32]);
    assert_eq!(o.markets[0].quote_mint, [18u8; 32]);
    assert_eq!(o.markets[0].price, 1_000);
    assert_eq!(o.users[0].open_orders[0].market, [10u8; 32]);
    assert_eq!(o.users[0].open_orders[0].open_orders, [201u8; 32]);
    assert_eq!(o.users[0].token_data[0].token_account, [200u8; 32]);
    assert_eq!(o.program_id("openbook_v2"), Some([100u8; 32]));
    assert_eq!(o.program_id("other"), Some([101u8; 32]));
    assert_eq!(o.program_id("missing"), None);
}

#[test]
fn a_bad_address_or_key_refuses_the_configuration() {
    let mut c = config();
    c.mints.push("0OIl".to_string());
    assert!(Obv2Config::try_from_config(&c).is_none());
    let mut c = config();
    c.users[0].secret = vec![0u8; 10];
    assert!(Obv2Config::try_from_config(&c).is_none());
    let mut c = config();
    c.markets[0].asks = "x".to_string();
    assert!(Obv2Config::try_from_config(&c).is_none());
}

#[test]
fn configuration_needs_payers_and_markets() {
    let mut c = config();
    c.users.clear();
    assert_eq!(check_config(&c), Err(ConfigError::NoPayers));
    let mut c = config();
    c.markets.clear();
    assert_eq!(check_config(&c), Err(ConfigError::NoMarkets));
    let mut c = config();
    c.users.clear();
    c.markets.clear();
    assert_eq!(check_config(&c), Err(ConfigError::NoPayers));
}

#[test]
fn users_sign_with_their_key_pair() {
    let kp = Keypair::new();
    let user = Obv2User {
        secret: KeypairBytes { bytes: kp.to_bytes().to_vec() },
        token_data: vec![],
        open_orders: vec![],
    };
    assert_eq!(user.try_pubkey(), kp.pubkey().to_bytes());
    assert!(user.is_interactive());
    let message = b"quote";
    let sig = user.try_sign_message(message).expect("a key pair signs");
    assert_eq!(sig, <[u8; 64]>::from(kp.sign_message(message)));
    assert!(solana_sdk::signature::Signature::from(sig).verify(&kp.pubkey().to_bytes(), message));
    let broken = Obv2User { secret: KeypairBytes { bytes: vec![1u8; 64] }, token_data: vec![], open_orders: vec![] };
    assert_eq!(broken.try_sign_message(message), Err(SignerError::InvalidKeypair));
}
