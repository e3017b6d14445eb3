//! Configuration for talking to one relayer: the base URL every route is
//! appended to, and the USDC mint that prices are quoted against.

use vstd::prelude::*;

verus! {

/// A client configuration for interacting with a configured relayer.
pub struct RelayerClient {
    /// The base URL of the relayer.
    base_url: String,
    /// The mint of the USDC token.
    usdc_mint: String,
}

impl RelayerClient {
    /// The configured base URL.
    pub closed spec fn base_url_view(self) -> Seq<char> {
        self.base_url@
    }

    /// The configured USDC mint.
    pub closed spec fn usdc_mint_view(self) -> Seq<char> {
        self.usdc_mint@
    }

    /// Create a new relayer client.
    pub fn new(base_url: &str, usdc_mint: &str) -> (client: Self)
        ensures
            client.base_url_view() == base_url@,
            client.usdc_mint_view() == usdc_mint@,
    {
        Self { base_url: base_url.to_owned(), usdc_mint: usdc_mint.to_owned() }
    }

    /// The base URL, for building request routes.
    pub fn base_url(&self) -> (url: &String)
        ensures
            url@ == self.base_url_view(),
    {
        &self.base_url
    }

    /// The configured USDC mint, the quote side of every price report.
    pub fn usdc_mint(&self) -> (mint: &String)
        ensures
            mint@ == self.usdc_mint_view(),
    {
        &self.usdc_mint
    }

    /// Whether a mint is the configured USDC mint, whose USDC price is one
    /// by definition and needs no price report.
    pub fn is_usdc_mint(&self, mint: &str) -> (is_usdc: bool)
        ensures
            is_usdc == (mint@ == self.usdc_mint_view()),
    {
        let owned: String = mint.to_owned();
        self.usdc_mint == owned
    }
}

} // verus!
