use vstd::prelude::*;
use crate::events::{is_mint, TransferEvent};
use crate::events::sender_is_zero;
use crate::text::{decimals_spec, has_substring, parse_decimals, str_contains};

verus! {

/// Decimal precision assumed for a token whose precision is unknown.
pub const DEFAULT_DECIMALS: u32 = 18;

/// Metadata of one token contract.
pub struct Token {
    /// Contract address, as canonical lower-case hex; the registry's key.
    pub contract_addr: String,
    pub token_name: String,
    pub token_sym: String,
    pub decimals: u32,
}

impl Default for Token {
    /// A token with empty texts and the default precision.
    fn default() -> (r: Self)
        ensures
            r.contract_addr@ == Seq::<char>::empty(),
            r.token_name@ == Seq::<char>::empty(),
            r.token_sym@ == Seq::<char>::empty(),
            r.decimals == DEFAULT_DECIMALS,
    {
        Token {
            contract_addr: String::new(),
            token_name: String::new(),
            token_sym: String::new(),
            decimals: DEFAULT_DECIMALS,
        }
    }
}

/// The token metadata an event reports.
pub open spec fn token_of(e: TransferEvent) -> Token {
    Token {
        contract_addr: e.contract,
        token_name: e.token_name,
        token_sym: e.token_symbol,
        decimals: decimals_spec(e.token_decimal@),
    }
}

/// Address to metadata over the mint events of `evs`; a later event of a
/// contract replaces an earlier one.
pub open spec fn registry_spec(evs: Seq<TransferEvent>) -> Map<Seq<char>, Token>
    decreases evs.len(),
{
    if evs.len() == 0 {
        Map::empty()
    } else if is_mint(evs.last()) {
        registry_spec(evs.drop_last()).insert(evs.last().contract@, token_of(evs.last()))
    } else {
        registry_spec(evs.drop_last())
    }
}

/// No two tokens of `reg` share an address.
pub open spec fn unique_addrs(reg: Seq<Token>) -> bool {
    forall|i: int, j: int|
        0 <= i < reg.len() && 0 <= j < reg.len() && i != j ==> #[trigger] reg[i].contract_addr@
            != #[trigger] reg[j].contract_addr@
}

/// `reg` lists exactly the entries of `m`, each once.
pub open spec fn lists_map(reg: Seq<Token>, m: Map<Seq<char>, Token>) -> bool {
    &&& unique_addrs(reg)
    &&& forall|i: int|
        0 <= i < reg.len() ==> m.contains_key(#[trigger] reg[i].contract_addr@) && m[reg[i].contract_addr@]
            == reg[i]
    &&& forall|a: Seq<char>|
        #[trigger] m.contains_key(a) ==> exists|i: int| 0 <= i < reg.len() && #[trigger] reg[i].contract_addr@ == a
}

/// Index of the first token of `reg`, from `i` on, whose address is `a`.
pub open spec fn find_from(reg: Seq<Token>, a: Seq<char>, i: int) -> Option<int>
    decreases reg.len() - i,
{
    if i < 0 || i >= reg.len() {
        None
    } else if reg[i].contract_addr@ == a {
        Some(i)
    } else {
        find_from(reg, a, i + 1)
    }
}

/// Symbol registered for `a`; empty when `a` is not registered.
pub open spec fn symbol_for(reg: Seq<Token>, a: Seq<char>) -> Seq<char> {
    match find_from(reg, a, 0) {
        Some(i) => reg[i].token_sym@,
        None => Seq::empty(),
    }
}

/// Precision registered for `a`; the default when `a` is not registered.
pub open spec fn decimals_for(reg: Seq<Token>, a: Seq<char>) -> u32 {
    match find_from(reg, a, 0) {
        Some(i) => reg[i].decimals,
        None => DEFAULT_DECIMALS,
    }
}

/// A symbol of a token pegged to the US dollar.
pub open spec fn is_stable_symbol(sym: Seq<char>) -> bool {
    has_substring(sym, "USDT"@) || has_substring(sym, "USDC"@) || has_substring(sym, "DAI"@)
}

/// A symbol of a bitcoin-denominated token, for which no price series exists.
pub open spec fn is_btc_symbol(sym: Seq<char>) -> bool {
    has_substring(sym, "BTC"@)
}

proof fn lemma_find_from_found(reg: Seq<Token>, a: Seq<char>, i: int)
    requires
        0 <= i,
    ensures
        find_from(reg, a, i) matches Some(j) ==> i <= j < reg.len() && reg[j].contract_addr@ == a,
        find_from(reg, a, i) is None ==> forall|k: int| i <= k < reg.len() ==> #[trigger] reg[k].contract_addr@ != a,
    decreases reg.len() - i,
{
    if i < reg.len() && reg[i].contract_addr@ != a {
        lemma_find_from_found(reg, a, i + 1);
    }
}

/// Position of the first token registered under `addr`, if any.
pub fn find_token(reg: &Vec<Token>, addr: &String) -> (r: Option<usize>)
    ensures
        r matches Some(j) ==> find_from(reg@, addr@, 0) == Some(j as int),
        r is None ==> find_from(reg@, addr@, 0) is None,
        r matches Some(j) ==> j < reg.len() && reg@[j as int].contract_addr@ == addr@,
        r is None ==> forall|k: int| 0 <= k < reg.len() ==> #[trigger] reg@[k].contract_addr@ != addr@,
{
    proof {
        lemma_find_from_found(reg@, addr@, 0);
    }
    let mut i: usize = 0;
    while i < reg.len()
        invariant
            i <= reg.len(),
            find_from(reg@, addr@, 0) == find_from(reg@, addr@, i as int),
        decreases reg.len() - i,
    {
        if reg[i].contract_addr == *addr {
            return Some(i);
        }
        i = i + 1;
    }
    None
}

/// Symbol registered for `addr`, empty when it is unknown.
pub fn token_symbol(reg: &Vec<Token>, addr: &String) -> (r: String)
    ensures
        r@ == symbol_for(reg@, addr@),
{
    match find_token(reg, addr) {
        Some(j) => reg[j].token_sym.clone(),
        None => String::new(),
    }
}

/// Precision registered for `addr`, the default when it is unknown.
pub fn token_decimals(reg: &Vec<Token>, addr: &String) -> (r: u32)
    ensures
        r == decimals_for(reg@, addr@),
{
    match find_token(reg, addr) {
        Some(j) => reg[j].decimals,
        None => DEFAULT_DECIMALS,
    }
}

/// Whether the token at `token_addr` is a US-dollar stablecoin, judged by its
/// symbol.
pub fn is_usd_stablecoin(token_hash: &Vec<Token>, token_addr: &String) -> (r: bool)
    ensures
        r == is_stable_symbol(symbol_for(token_hash@, token_addr@)),
{
    let sym = token_symbol(token_hash, token_addr);
    str_contains(sym.as_str(), "USDT") || str_contains(sym.as_str(), "USDC") || str_contains(
        sym.as_str(),
        "DAI",
    )
}

/// Whether the token at `token_addr` is bitcoin-denominated, judged by its
/// symbol.
pub fn is_btc_token(token_hash: &Vec<Token>, token_addr: &String) -> (r: bool)
    ensures
        r == is_btc_symbol(symbol_for(token_hash@, token_addr@)),
{
    let sym = token_symbol(token_hash, token_addr);
    str_contains(sym.as_str(), "BTC")
}

/// The token metadata one event reports.
pub fn token_from_event(e: &TransferEvent) -> (r: Token)
    ensures
        r == token_of(*e),
{
    Token {
        contract_addr: e.contract.clone(),
        token_name: e.token_name.clone(),
        token_sym: e.token_symbol.clone(),
        decimals: parse_decimals(e.token_decimal.as_str()),
    }
}

/// One token per contract seen in a mint event, with the metadata of the last
/// such event of that contract.
pub fn build_registry(events: &Vec<TransferEvent>) -> (r: Vec<Token>)
    ensures
        lists_map(r@, registry_spec(events@)),
{
    let mut out: Vec<Token> = Vec::new();
    let mut i: usize = 0;
    while i < events.len()
        invariant
            i <= events.len(),
            lists_map(out@, registry_spec(events@.take(i as int))),
        decreases events.len() - i,
    {
        let ghost before = out@;
        let ghost m = registry_spec(events@.take(i as int));
        assert(events@.take(i as int + 1).drop_last() == events@.take(i as int));
        assert(events@.take(i as int + 1).last() == events@[i as int]);
        if sender_is_zero(&events[i]) {
            let t = token_from_event(&events[i]);
            let ghost a = t.contract_addr@;
            let ghost m2 = m.insert(a, t);
            assert(registry_spec(events@.take(i as int + 1)) == m2);
            match find_token(&out, &t.contract_addr) {
                Some(j) => {
                    out.set(j, t);
                    assert forall|k: int| 0 <= k < out@.len() && k != j implies #[trigger] out@[k].contract_addr@ != a by {
                        assert(before[k].contract_addr@ != before[j as int].contract_addr@);
                    }
                    assert forall|b: Seq<char>| #[trigger] m2.contains_key(b) implies exists|k: int|
                        0 <= k < out@.len() && #[trigger] out@[k].contract_addr@ == b by {
                        if b == a {
                            assert(out@[j as int].contract_addr@ == b);
                        } else {
                            let k = choose|k: int| 0 <= k < before.len() && #[trigger] before[k].contract_addr@ == b;
                            assert(out@[k].contract_addr@ == b);
                        }
                    }
                },
                None => {
                    out.push(t);
                    assert forall|b: Seq<char>| #[trigger] m2.contains_key(b) implies exists|k: int|
                        0 <= k < out@.len() && #[trigger] out@[k].contract_addr@ == b by {
                        if b == a {
                            assert(out@[before.len() as int].contract_addr@ == b);
                        } else {
                            let k = choose|k: int| 0 <= k < before.len() && #[trigger] before[k].contract_addr@ == b;
                            assert(out@[k].contract_addr@ == b);
                        }
                    }
                },
            }
        }
        i = i + 1;
    }
    assert(events@.take(events.len() as int) == events@);
    out
}

} // verus!
