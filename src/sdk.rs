use vstd::prelude::*;
use vstd::string::{StrSliceExecFns, StringExecFns, StringSliceAdditionalSpecFns};
use vstd::utf8::{encode_utf8, is_ascii_chars, is_ascii_chars_encode_utf8, is_char_boundary};

verus! {

pub enum WalletError {
    InvalidKeypair(String),
    NetworkError(String),
    InsufficientBalance,
    TransactionFailed(String),
}

/// Which Stellar network a wallet talks to, and where its Horizon server is.
pub struct WalletConfig {
    pub network: String,
    pub horizon_url: String,
}

impl Clone for WalletConfig {
    fn clone(&self) -> (r: Self)
        ensures
            r == *self,
    {
        WalletConfig { network: self.network.clone(), horizon_url: self.horizon_url.clone() }
    }
}

pub struct Balance {
    pub asset_code: String,
    pub balance: String,
    pub limit: Option<String>,
}

pub struct PaymentResult {
    pub transaction_hash: String,
    pub amount: String,
    pub asset_code: String,
    pub destination: String,
}

/// The lowercase hexadecimal digit of `n`, for `n < 16`.
pub open spec fn hex_digit(n: u8) -> char {
    seq!['0', '1', '2', '3', '4', '5', '6', '7', '8', '9', 'a', 'b', 'c', 'd', 'e', 'f'][n as int]
}

/// Two lowercase hexadecimal digits per byte, high nibble first.
pub open spec fn hex_of(b: Seq<u8>) -> Seq<char> {
    Seq::new(
        2 * b.len(),
        |i: int|
            if i % 2 == 0 {
                hex_digit(b[i / 2] / 16)
            } else {
                hex_digit(b[i / 2] % 16)
            },
    )
}

/// A key of the simplified Stellar format: 56 bytes of UTF-8 that start with `lead`.
pub open spec fn is_key(s: Seq<char>, lead: char) -> bool {
    encode_utf8(s).len() == 56 && s.len() > 0 && s[0] == lead
}

/// The public key that goes with secret key `secret`: its first character becomes `G`.
pub open spec fn public_of(secret: Seq<char>) -> Seq<char> {
    seq!['G'] + secret.subrange(1, secret.len() as int)
}

/// A key pair as `generate` makes it from the random bytes `b`.
pub open spec fn pair_from(b: Seq<u8>) -> (Seq<char>, Seq<char>) {
    (seq!['G'] + hex_of(b).subrange(0, 55), seq!['S'] + hex_of(b).subrange(0, 55))
}

proof fn lemma_hex_digit_ascii(n: u8)
    requires
        n < 16,
    ensures
        '\0' <= hex_digit(n) <= '\u{7f}',
{
    let d = seq!['0', '1', '2', '3', '4', '5', '6', '7', '8', '9', 'a', 'b', 'c', 'd', 'e', 'f'];
    assert(d[n as int] == hex_digit(n));
    assert(forall|i: int| 0 <= i < 16 ==> '\0' <= #[trigger] d[i] <= '\u{7f}');
}

/// Both keys made from 32 bytes are ASCII, 56 bytes long, and agree after their first
/// character.
pub proof fn lemma_pair_keys(b: Seq<u8>)
    requires
        b.len() == 32,
    ensures
        is_key(pair_from(b).0, 'G'),
        is_key(pair_from(b).1, 'S'),
        pair_from(b).0 == public_of(pair_from(b).1),
{
    let h = hex_of(b).subrange(0, 55);
    assert forall|i: int| 0 <= i < h.len() implies '\0' <= #[trigger] h[i] <= '\u{7f}' by {
        if i % 2 == 0 {
            lemma_hex_digit_ascii(b[i / 2] / 16);
        } else {
            lemma_hex_digit_ascii(b[i / 2] % 16);
        }
    }
    let p = seq!['G'] + h;
    let q = seq!['S'] + h;
    assert(is_ascii_chars(p));
    assert(is_ascii_chars(q));
    is_ascii_chars_encode_utf8(p);
    is_ascii_chars_encode_utf8(q);
    assert(q.subrange(1, q.len() as int) =~= h);
}

/// Relies on rand::random: 32 bytes from the thread-local generator; nothing is promised
/// of their value.
#[verifier::external_body]
fn random_key_bytes() -> (r: [u8; 32]) {
    rand::random::<[u8; 32]>()
}

/// Relies on hex::encode: each byte becomes two lowercase hexadecimal digits, in order.
#[verifier::external_body]
fn hex_encode(b: &[u8; 32]) -> (r: String)
    ensures
        r@ == hex_of(b@),
{
    hex::encode(b)
}

fn lead_char(s: &str, c: char) -> (r: bool)
    ensures
        r == (s@.len() > 0 && s@[0] == c),
{
    s.unicode_len() > 0 && s.get_char(0) == c
}

fn str_of(c: char) -> (r: String)
    requires
        c == 'G' || c == 'S',
    ensures
        r@ == seq![c],
{
    if c == 'G' {
        proof {
            reveal_strlit("G");
        }
        String::from_str("G")
    } else {
        proof {
            reveal_strlit("S");
        }
        String::from_str("S")
    }
}

/// Whether `s` has the shape of a public (`G`) or secret (`S`) Stellar key.
fn has_key_shape(s: &str, lead: char) -> (r: bool)
    ensures
        r == is_key(s@, lead),
{
    s.as_bytes().len() == 56 && lead_char(s, lead)
}

pub struct NovaPayWallet {
    public_key: String,
    secret_key: String,
    config: WalletConfig,
}

impl NovaPayWallet {
    pub closed spec fn public_key_view(&self) -> Seq<char> {
        self.public_key@
    }

    pub closed spec fn secret_key_view(&self) -> Seq<char> {
        self.secret_key@
    }

    pub closed spec fn config_view(&self) -> WalletConfig {
        self.config
    }

    /// Opens the wallet of secret key `secret_key`, refusing a key of the wrong shape.
    pub fn new(secret_key: &str, config: WalletConfig) -> (r: Result<NovaPayWallet, WalletError>)
        ensures
            is_key(secret_key@, 'S') ==> (r matches Ok(w) && w.secret_key_view() == secret_key@
                && w.public_key_view() == public_of(secret_key@) && w.config_view() == config),
            !is_key(secret_key@, 'S') ==> (r matches Err(WalletError::InvalidKeypair(m)) && m@
                == "Invalid secret key format"@),
    {
        if !has_key_shape(secret_key, 'S') {
            proof {
                reveal_strlit("Invalid secret key format");
            }
            return Err(WalletError::InvalidKeypair(String::from_str("Invalid secret key format")));
        }
        let n = secret_key.unicode_len();
        let mut public_key = str_of('G');
        public_key.append(secret_key.substring_char(1, n));
        Ok(NovaPayWallet { public_key, secret_key: String::from_str(secret_key), config })
    }

    /// A fresh random key pair, public key first: `G` and `S` each followed by the same 55
    /// hexadecimal digits.
    pub fn generate() -> (r: (String, String))
        ensures
            exists|b: Seq<u8>| b.len() == 32 && (r.0@, r.1@) == pair_from(b),
            is_key(r.0@, 'G'),
            is_key(r.1@, 'S'),
            r.0@ == public_of(r.1@),
    {
        let bytes = random_key_bytes();
        let hex_str = hex_encode(&bytes);
        let digits = hex_str.as_str().substring_char(0, 55);
        let mut public_key = str_of('G');
        public_key.append(digits);
        let mut secret_key = str_of('S');
        secret_key.append(digits);
        proof {
            assert((public_key@, secret_key@) == pair_from(bytes@));
            lemma_pair_keys(bytes@);
        }
        (public_key, secret_key)
    }

    pub fn public_key(&self) -> (r: String)
        ensures
            r@ == self.public_key_view(),
    {
        self.public_key.clone()
    }

    /// Records a payment of `amount` of the settlement asset to `destination` under a fresh
    /// transaction hash: `tx_` and 16 hexadecimal digits.
    pub fn send_payment(&self, destination: &str, amount: &str, asset_code: Option<&str>) -> (r:
        Result<PaymentResult, WalletError>)
        ensures
            r matches Ok(p) && p.destination@ == destination@ && p.amount@ == amount@
                && p.asset_code@ == "XLM"@ && p.transaction_hash@.len() == 19
                && p.transaction_hash@.subrange(0, 3) == "tx_"@,
    {
        let digits = new_hash_digits();
        let mut transaction_hash = String::from_str("tx_");
        transaction_hash.append(digits.as_str().substring_char(0, 16));
        proof {
            reveal_strlit("tx_");
            assert(transaction_hash@.subrange(0, 3) =~= "tx_"@);
        }
        Ok(
            PaymentResult {
                transaction_hash,
                amount: String::from_str(amount),
                asset_code: String::from_str("XLM"),
                destination: String::from_str(destination),
            },
        )
    }

    /// Records a trust line to `asset_code` of `issuer`; its hash names the asset and the
    /// characters that make up the first eight bytes of the issuer, which must end on a
    /// character boundary.
    pub fn create_trustline(&self, asset_code: &str, issuer: &str, limit: Option<&str>) -> (r:
        Result<String, WalletError>)
        requires
            issuer.spec_bytes().len() >= 8,
            is_char_boundary(issuer.spec_bytes(), 8),
        ensures
            r matches Ok(h) && ({
                let lead = "trustline_"@ + asset_code@ + "_"@;
                &&& h@.len() >= lead.len()
                &&& h@.subrange(0, lead.len() as int) == lead
                &&& encode_utf8(h@.subrange(lead.len() as int, h@.len() as int))
                    == issuer.spec_bytes().subrange(0, 8)
            }),
    {
        let (head, _) = issuer.split_at(8);
        let mut h = String::from_str("trustline_");
        h.append(asset_code);
        h.append("_");
        let ghost lead = h@;
        h.append(head);
        proof {
            assert(h@.subrange(0, lead.len() as int) =~= lead);
            assert(h@.subrange(lead.len() as int, h@.len() as int) =~= head@);
        }
        Ok(h)
    }
}

/// Relies on uuid::Uuid::new_v4 and the `Display` of its `simple` form: 32 hexadecimal
/// digits of a random identifier.
#[verifier::external_body]
fn new_hash_digits() -> (r: String)
    ensures
        r@.len() == 32,
{
    uuid::Uuid::new_v4().simple().to_string()
}

/// What a list of `(id, wallet)` entries maps each id to: a later entry for an id replaces
/// an earlier one.
pub open spec fn entries_map(s: Seq<(String, NovaPayWallet)>) -> Map<Seq<char>, NovaPayWallet>
    decreases s.len(),
{
    if s.len() == 0 {
        Map::empty()
    } else {
        entries_map(s.drop_last()).insert(s.last().0@, s.last().1)
    }
}

/// No id occurs twice among the entries of `s`.
pub open spec fn ids_unique(s: Seq<(String, NovaPayWallet)>) -> bool {
    forall|i: int, j: int|
        0 <= i < s.len() && 0 <= j < s.len() && i != j ==> (#[trigger] s[i]).0@ != (#[trigger] s[j]).0@
}

/// Replacing the entry of an id, among entries with unique ids, replaces what the id maps to.
pub proof fn lemma_entries_map_update(s: Seq<(String, NovaPayWallet)>, i: int, e: (String, NovaPayWallet))
    requires
        ids_unique(s),
        0 <= i < s.len(),
        s[i].0@ == e.0@,
    ensures
        entries_map(s.update(i, e)) == entries_map(s).insert(e.0@, e.1),
    decreases s.len(),
{
    let t = s.update(i, e);
    let d = s.drop_last();
    if i == s.len() - 1 {
        assert(t.drop_last() =~= d);
        assert(entries_map(t) =~= entries_map(s).insert(e.0@, e.1));
    } else {
        assert(t.drop_last() =~= d.update(i, e));
        assert(ids_unique(d)) by {
            assert forall|a: int, b: int|
                0 <= a < d.len() && 0 <= b < d.len() && a != b implies (#[trigger] d[a]).0@
                != (#[trigger] d[b]).0@ by {
                assert(d[a] == s[a] && d[b] == s[b]);
            }
        }
        lemma_entries_map_update(d, i, e);
        assert(s[s.len() - 1] == s.last());
        assert(s.last().0@ != s[i].0@);
        assert(entries_map(t) =~= entries_map(s).insert(e.0@, e.1));
    }
}

/// Wallets kept under ids of the caller's choosing, all on one network.
pub struct WalletManager {
    wallets: Vec<(String, NovaPayWallet)>,
    config: WalletConfig,
}

impl WalletManager {
    pub closed spec fn wallet_map(&self) -> Map<Seq<char>, NovaPayWallet> {
        entries_map(self.wallets@)
    }

    pub closed spec fn config_view(&self) -> WalletConfig {
        self.config
    }

    /// Each id is kept once.
    pub closed spec fn wf(&self) -> bool {
        ids_unique(self.wallets@)
    }

    pub fn new(config: WalletConfig) -> (m: WalletManager)
        ensures
            m.wf(),
            m.wallet_map() == Map::<Seq<char>, NovaPayWallet>::empty(),
            m.config_view() == config,
    {
        WalletManager { wallets: Vec::new(), config }
    }

    /// Opens the wallet of `secret_key` and keeps it under `id`, replacing what `id` held.
    pub fn add_wallet(&mut self, id: &str, secret_key: &str) -> (r: Result<(), WalletError>)
        requires
            old(self).wf(),
        ensures
            final(self).wf(),
            final(self).config_view() == old(self).config_view(),
            is_key(secret_key@, 'S') ==> ({
                let w = final(self).wallet_map()[id@];
                &&& r is Ok
                &&& final(self).wallet_map() == old(self).wallet_map().insert(id@, w)
                &&& w.secret_key_view() == secret_key@
                &&& w.public_key_view() == public_of(secret_key@)
                &&& w.config_view() == old(self).config_view()
            }),
            !is_key(secret_key@, 'S') ==> (r matches Err(WalletError::InvalidKeypair(m)) && m@
                == "Invalid secret key format"@) && final(self).wallet_map() == old(
                self,
            ).wallet_map(),
    {
        let wallet = match NovaPayWallet::new(secret_key, self.config.clone()) {
            Ok(w) => w,
            Err(e) => {
                return Err(e);
            },
        };
        let key = String::from_str(id);
        let ghost before = self.wallets@;
        let ghost cfg = self.config;
        let mut i: usize = 0;
        while i < self.wallets.len()
            invariant
                i <= self.wallets@.len(),
                self.wallets@ == before,
                self.config == cfg,
                cfg == old(self).config,
                before == old(self).wallets@,
                ids_unique(before),
                is_key(secret_key@, 'S'),
                wallet.secret_key_view() == secret_key@,
                wallet.public_key_view() == public_of(secret_key@),
                wallet.config_view() == cfg,
                key@ == id@,
                forall|j: int| 0 <= j < i ==> (#[trigger] self.wallets@[j]).0@ != id@,
            decreases self.wallets@.len() - i,
        {
            if self.wallets[i].0 == key {
                let entry = (key, wallet);
                proof {
                    lemma_entries_map_update(before, i as int, entry);
                }
                self.wallets[i] = entry;
                proof {
                    assert(self.wallets@ =~= before.update(i as int, entry));
                    assert forall|a: int, b: int|
                        0 <= a < self.wallets@.len() && 0 <= b < self.wallets@.len() && a != b
                        implies (#[trigger] self.wallets@[a]).0@ != (#[trigger] self.wallets@[b]).0@ by {
                        assert(before[a].0@ != before[b].0@);
                    }
                }
                return Ok(());
            }
            i = i + 1;
        }
        let entry = (key, wallet);
        self.wallets.push(entry);
        proof {
            assert(self.wallets@.drop_last() =~= before);
            assert forall|a: int, b: int|
                0 <= a < self.wallets@.len() && 0 <= b < self.wallets@.len() && a != b
                implies (#[trigger] self.wallets@[a]).0@ != (#[trigger] self.wallets@[b]).0@ by {
                if a < before.len() && b < before.len() {
                    assert(before[a].0@ != before[b].0@);
                }
            }
        }
        Ok(())
    }

    /// Sends each `(destination, amount)` of `payments` from the wallet kept under
    /// `wallet_id`, in order, and returns their results.
    pub fn bulk_payment(&self, wallet_id: &str, payments: Vec<(String, String)>) -> (r: Result<
        Vec<PaymentResult>,
        WalletError,
    >)
        ensures
            !self.wallet_map().dom().contains(wallet_id@) ==> (r matches Err(
                WalletError::TransactionFailed(m),
            ) && m@ == "Wallet not found"@),
            self.wallet_map().dom().contains(wallet_id@) ==> (r matches Ok(v) && v@.len()
                == payments@.len() && forall|k: int|
                0 <= k < v@.len() ==> (#[trigger] v@[k]).destination@ == payments@[k].0@
                    && v@[k].amount@ == payments@[k].1@ && v@[k].asset_code@ == "XLM"@),
    {
        let wallet = match self.get_wallet(wallet_id) {
            Some(w) => w,
            None => {
                proof {
                    reveal_strlit("Wallet not found");
                }
                return Err(WalletError::TransactionFailed(String::from_str("Wallet not found")));
            },
        };
        let mut results: Vec<PaymentResult> = Vec::new();
        let mut k: usize = 0;
        while k < payments.len()
            invariant
                k <= payments@.len(),
                results@.len() == k,
                forall|j: int|
                    0 <= j < k ==> (#[trigger] results@[j]).destination@ == payments@[j].0@
                        && results@[j].amount@ == payments@[j].1@ && results@[j].asset_code@
                        == "XLM"@,
            decreases payments@.len() - k,
        {
            let p = wallet.send_payment(payments[k].0.as_str(), payments[k].1.as_str(), None);
            match p {
                Ok(res) => {
                    results.push(res);
                },
                Err(e) => {
                    return Err(e);
                },
            }
            k = k + 1;
        }
        Ok(results)
    }

    /// The wallet kept under `id`, if any.
    pub fn get_wallet(&self, id: &str) -> (r: Option<&NovaPayWallet>)
        ensures
            self.wallet_map().dom().contains(id@) ==> r == Some(&self.wallet_map()[id@]),
            !self.wallet_map().dom().contains(id@) ==> r is None,
    {
        let key = String::from_str(id);
        let mut i: usize = self.wallets.len();
        assert(self.wallets@.subrange(0, i as int) =~= self.wallets@);
        while i > 0
            invariant
                i <= self.wallets@.len(),
                key@ == id@,
                self.wallet_map().dom().contains(id@) == entries_map(
                    self.wallets@.subrange(0, i as int),
                ).dom().contains(id@),
                entries_map(self.wallets@.subrange(0, i as int)).dom().contains(id@)
                    ==> self.wallet_map()[id@] == entries_map(
                    self.wallets@.subrange(0, i as int),
                )[id@],
            decreases i,
        {
            let ghost sub = self.wallets@.subrange(0, i as int);
            assert(sub.drop_last() =~= self.wallets@.subrange(0, i - 1));
            assert(sub.last() == self.wallets@[i - 1]);
            if self.wallets[i - 1].0 == key {
                return Some(&self.wallets[i - 1].1);
            }
            i = i - 1;
        }
        None
    }
}

/// Relies on uuid::Uuid::new_v4 and its hyphenated `to_string`: a random identifier of
/// 36 characters.
#[verifier::external_body]
fn new_wallet_id() -> (r: String)
    ensures
        r@.len() == 36,
{
    uuid::Uuid::new_v4().to_string()
}

pub struct WalletCreateRequest {
    pub user_id: String,
}

pub struct WalletCreateResponse {
    pub public_key: String,
    pub secret_key: String,
    pub wallet_id: String,
}

pub struct SendPaymentRequest {
    pub destination: String,
    pub amount: String,
    pub asset_code: Option<String>,
    pub memo: Option<String>,
}

pub struct WalletBalanceResponse {
    pub balances: Vec<Balance>,
    pub public_key: String,
}

/// The Horizon server of `network`: the test network's for `testnet`, else the public one.
pub open spec fn horizon_of(network: Seq<char>) -> Seq<char> {
    if network == "testnet"@ {
        "https://horizon-testnet.stellar.org"@
    } else {
        "https://horizon.stellar.org"@
    }
}

/// Wallet operations for one network.
pub struct WalletSDKService {
    config: WalletConfig,
}

impl WalletSDKService {
    pub closed spec fn config_view(&self) -> WalletConfig {
        self.config
    }

    /// The service for the network named `network`.
    pub fn for_network(network: String) -> (s: WalletSDKService)
        ensures
            s.config_view().network == network,
            s.config_view().horizon_url@ == horizon_of(network@),
    {
        let testnet = String::from_str("testnet");
        let horizon_url = if network == testnet {
            String::from_str("https://horizon-testnet.stellar.org")
        } else {
            String::from_str("https://horizon.stellar.org")
        };
        WalletSDKService { config: WalletConfig { network, horizon_url } }
    }

    pub fn config(&self) -> (r: &WalletConfig)
        ensures
            *r == self.config_view(),
    {
        &self.config
    }

    /// A fresh key pair under a fresh wallet id.
    pub fn create_wallet(&self) -> (r: WalletCreateResponse)
        ensures
            exists|b: Seq<u8>|
                b.len() == 32 && (r.public_key@, r.secret_key@) == pair_from(b),
            is_key(r.public_key@, 'G'),
            is_key(r.secret_key@, 'S'),
            r.public_key@ == public_of(r.secret_key@),
            r.wallet_id@.len() == 36,
    {
        let (public_key, secret_key) = NovaPayWallet::generate();
        let wallet_id = new_wallet_id();
        WalletCreateResponse { public_key, secret_key, wallet_id }
    }

    /// Opens the wallet of `secret_key` on this service's network.
    pub fn open_wallet(&self, secret_key: &str) -> (r: Result<NovaPayWallet, WalletError>)
        ensures
            is_key(secret_key@, 'S') ==> (r matches Ok(w) && w.secret_key_view() == secret_key@
                && w.public_key_view() == public_of(secret_key@) && w.config_view()
                == self.config_view()),
            !is_key(secret_key@, 'S') ==> r is Err,
    {
        NovaPayWallet::new(secret_key, self.config.clone())
    }

    pub fn validate_stellar_address(&self, address: &str) -> (r: bool)
        ensures
            r == is_key(address@, 'G'),
    {
        has_key_shape(address, 'G')
    }

    pub fn validate_stellar_secret(&self, secret: &str) -> (r: bool)
        ensures
            r == is_key(secret@, 'S'),
    {
        has_key_shape(secret, 'S')
    }
}

pub struct StellarAccount {
    pub public_key: String,
    pub secret_key: String,
}

pub struct AccountBalance {
    pub balance: String,
    pub asset_type: String,
    pub asset_code: Option<String>,
}

/// Key handling for the Stellar network, bound to one settlement contract.
pub struct StellarService {
    pub contract_id: String,
}

impl StellarService {
    pub fn with_contract(contract_id: String) -> (s: StellarService)
        ensures
            s.contract_id == contract_id,
    {
        StellarService { contract_id }
    }

    /// A fresh random key pair.
    pub fn generate_keypair() -> (r: StellarAccount)
        ensures
            exists|b: Seq<u8>|
                b.len() == 32 && (r.public_key@, r.secret_key@) == pair_from(b),
            is_key(r.public_key@, 'G'),
            is_key(r.secret_key@, 'S'),
            r.public_key@ == public_of(r.secret_key@),
    {
        let (public_key, secret_key) = NovaPayWallet::generate();
        StellarAccount { public_key, secret_key }
    }

    /// The key pair of secret key `secret`.
    pub fn keypair_from_secret(&self, secret: &str) -> (r: StellarAccount)
        requires
            secret@.len() > 0,
        ensures
            r.public_key@ == public_of(secret@),
            r.secret_key@ == secret@,
    {
        let n = secret.unicode_len();
        let mut public_key = str_of('G');
        public_key.append(secret.substring_char(1, n));
        StellarAccount { public_key, secret_key: String::from_str(secret) }
    }
}

/// Notification delivery to phone numbers.
pub struct SmsService;

impl SmsService {
    pub fn new() -> (s: SmsService) {
        SmsService
    }
}

} // verus!
