use vstd::prelude::*;

verus! {

broadcast use vstd::string::is_ascii_spec_bytes;

/// Number of supported currencies.
pub const NUM_CCY: usize = 24;

/// A supported asset symbol.
#[derive(Clone, Copy, Debug, PartialEq, Eq, Structural)]
pub enum Ccy {
    AAVE,
    ADA,
    BCH,
    BEST,
    BTC,
    CHF,
    CHZ,
    DOGE,
    DOT,
    EOS,
    ETH,
    EUR,
    GBP,
    LINK,
    LTC,
    MIOTA,
    PAN,
    TRX,
    TRY,
    UNI,
    USDT,
    XLM,
    XRP,
    XTZ,
}

/// The text code of a currency, as ASCII bytes.
pub open spec fn code_bytes_of(c: Ccy) -> Seq<u8> {
    match c {
        Ccy::AAVE => seq![65u8, 65u8, 86u8, 69u8],
        Ccy::ADA => seq![65u8, 68u8, 65u8],
        Ccy::BCH => seq![66u8, 67u8, 72u8],
        Ccy::BEST => seq![66u8, 69u8, 83u8, 84u8],
        Ccy::BTC => seq![66u8, 84u8, 67u8],
        Ccy::CHF => seq![67u8, 72u8, 70u8],
        Ccy::CHZ => seq![67u8, 72u8, 90u8],
        Ccy::DOGE => seq![68u8, 79u8, 71u8, 69u8],
        Ccy::DOT => seq![68u8, 79u8, 84u8],
        Ccy::EOS => seq![69u8, 79u8, 83u8],
        Ccy::ETH => seq![69u8, 84u8, 72u8],
        Ccy::EUR => seq![69u8, 85u8, 82u8],
        Ccy::GBP => seq![71u8, 66u8, 80u8],
        Ccy::LINK => seq![76u8, 73u8, 78u8, 75u8],
        Ccy::LTC => seq![76u8, 84u8, 67u8],
        Ccy::MIOTA => seq![77u8, 73u8, 79u8, 84u8, 65u8],
        Ccy::PAN => seq![80u8, 65u8, 78u8],
        Ccy::TRX => seq![84u8, 82u8, 88u8],
        Ccy::TRY => seq![84u8, 82u8, 89u8],
        Ccy::UNI => seq![85u8, 78u8, 73u8],
        Ccy::USDT => seq![85u8, 83u8, 68u8, 84u8],
        Ccy::XLM => seq![88u8, 76u8, 77u8],
        Ccy::XRP => seq![88u8, 82u8, 80u8],
        Ccy::XTZ => seq![88u8, 84u8, 90u8],
    }
}

/// The text code of a currency.
pub open spec fn code_of(c: Ccy) -> Seq<char> {
    code_bytes_of(c).map_values(|b: u8| b as char)
}

/// Position of a currency in the catalog.
pub open spec fn ccy_index(c: Ccy) -> nat {
    match c {
        Ccy::AAVE => 0,
        Ccy::ADA => 1,
        Ccy::BCH => 2,
        Ccy::BEST => 3,
        Ccy::BTC => 4,
        Ccy::CHF => 5,
        Ccy::CHZ => 6,
        Ccy::DOGE => 7,
        Ccy::DOT => 8,
        Ccy::EOS => 9,
        Ccy::ETH => 10,
        Ccy::EUR => 11,
        Ccy::GBP => 12,
        Ccy::LINK => 13,
        Ccy::LTC => 14,
        Ccy::MIOTA => 15,
        Ccy::PAN => 16,
        Ccy::TRX => 17,
        Ccy::TRY => 18,
        Ccy::UNI => 19,
        Ccy::USDT => 20,
        Ccy::XLM => 21,
        Ccy::XRP => 22,
        Ccy::XTZ => 23,
    }
}

/// The currency at a catalog position.
pub open spec fn ccy_at(i: nat) -> Ccy {
    if i == 0 { Ccy::AAVE }
    else if i == 1 { Ccy::ADA }
    else if i == 2 { Ccy::BCH }
    else if i == 3 { Ccy::BEST }
    else if i == 4 { Ccy::BTC }
    else if i == 5 { Ccy::CHF }
    else if i == 6 { Ccy::CHZ }
    else if i == 7 { Ccy::DOGE }
    else if i == 8 { Ccy::DOT }
    else if i == 9 { Ccy::EOS }
    else if i == 10 { Ccy::ETH }
    else if i == 11 { Ccy::EUR }
    else if i == 12 { Ccy::GBP }
    else if i == 13 { Ccy::LINK }
    else if i == 14 { Ccy::LTC }
    else if i == 15 { Ccy::MIOTA }
    else if i == 16 { Ccy::PAN }
    else if i == 17 { Ccy::TRX }
    else if i == 18 { Ccy::TRY }
    else if i == 19 { Ccy::UNI }
    else if i == 20 { Ccy::USDT }
    else if i == 21 { Ccy::XLM }
    else if i == 22 { Ccy::XRP }
    else { Ccy::XTZ }
}

impl Ccy {
    /// Position of this currency in the catalog.
    pub fn index(self) -> (r: usize)
        ensures
            r as nat == ccy_index(self),
            r < NUM_CCY,
    {
        match self {
            Ccy::AAVE => 0,
            Ccy::ADA => 1,
            Ccy::BCH => 2,
            Ccy::BEST => 3,
            Ccy::BTC => 4,
            Ccy::CHF => 5,
            Ccy::CHZ => 6,
            Ccy::DOGE => 7,
            Ccy::DOT => 8,
            Ccy::EOS => 9,
            Ccy::ETH => 10,
            Ccy::EUR => 11,
            Ccy::GBP => 12,
            Ccy::LINK => 13,
            Ccy::LTC => 14,
            Ccy::MIOTA => 15,
            Ccy::PAN => 16,
            Ccy::TRX => 17,
            Ccy::TRY => 18,
            Ccy::UNI => 19,
            Ccy::USDT => 20,
            Ccy::XLM => 21,
            Ccy::XRP => 22,
            Ccy::XTZ => 23,
        }
    }

    /// The currency at catalog position `i`.
    pub fn from_index(i: usize) -> (r: Ccy)
        requires
            i < NUM_CCY,
        ensures
            r == ccy_at(i as nat),
            ccy_index(r) == i,
    {
        if i == 0 {
            Ccy::AAVE
        }         else if i == 1 {
            Ccy::ADA
        }         else if i == 2 {
            Ccy::BCH
        }         else if i == 3 {
            Ccy::BEST
        }         else if i == 4 {
            Ccy::BTC
        }         else if i == 5 {
            Ccy::CHF
        }         else if i == 6 {
            Ccy::CHZ
        }         else if i == 7 {
            Ccy::DOGE
        }         else if i == 8 {
            Ccy::DOT
        }         else if i == 9 {
            Ccy::EOS
        }         else if i == 10 {
            Ccy::ETH
        }         else if i == 11 {
            Ccy::EUR
        }         else if i == 12 {
            Ccy::GBP
        }         else if i == 13 {
            Ccy::LINK
        }         else if i == 14 {
            Ccy::LTC
        }         else if i == 15 {
            Ccy::MIOTA
        }         else if i == 16 {
            Ccy::PAN
        }         else if i == 17 {
            Ccy::TRX
        }         else if i == 18 {
            Ccy::TRY
        }         else if i == 19 {
            Ccy::UNI
        }         else if i == 20 {
            Ccy::USDT
        }         else if i == 21 {
            Ccy::XLM
        }         else if i == 22 {
            Ccy::XRP
        } else {
            Ccy::XTZ
        }
    }

    /// The code of this currency as ASCII bytes.
    pub fn code_bytes(self) -> (r: Vec<u8>)
        ensures
            r@ == code_bytes_of(self),
    {
        match self {
            Ccy::AAVE => vec![65u8, 65u8, 86u8, 69u8],
            Ccy::ADA => vec![65u8, 68u8, 65u8],
            Ccy::BCH => vec![66u8, 67u8, 72u8],
            Ccy::BEST => vec![66u8, 69u8, 83u8, 84u8],
            Ccy::BTC => vec![66u8, 84u8, 67u8],
            Ccy::CHF => vec![67u8, 72u8, 70u8],
            Ccy::CHZ => vec![67u8, 72u8, 90u8],
            Ccy::DOGE => vec![68u8, 79u8, 71u8, 69u8],
            Ccy::DOT => vec![68u8, 79u8, 84u8],
            Ccy::EOS => vec![69u8, 79u8, 83u8],
            Ccy::ETH => vec![69u8, 84u8, 72u8],
            Ccy::EUR => vec![69u8, 85u8, 82u8],
            Ccy::GBP => vec![71u8, 66u8, 80u8],
            Ccy::LINK => vec![76u8, 73u8, 78u8, 75u8],
            Ccy::LTC => vec![76u8, 84u8, 67u8],
            Ccy::MIOTA => vec![77u8, 73u8, 79u8, 84u8, 65u8],
            Ccy::PAN => vec![80u8, 65u8, 78u8],
            Ccy::TRX => vec![84u8, 82u8, 88u8],
            Ccy::TRY => vec![84u8, 82u8, 89u8],
            Ccy::UNI => vec![85u8, 78u8, 73u8],
            Ccy::USDT => vec![85u8, 83u8, 68u8, 84u8],
            Ccy::XLM => vec![88u8, 76u8, 77u8],
            Ccy::XRP => vec![88u8, 82u8, 80u8],
            Ccy::XTZ => vec![88u8, 84u8, 90u8],
        }
    }

    /// The code of this currency (`"BTC"`, `"EUR"`, ...).
    pub fn code(self) -> (r: &'static str)
        ensures
            r@ == code_of(self),
    {
        match self {
            Ccy::AAVE => {
                proof {
                    reveal_strlit("AAVE");
                }
                "AAVE"
            },
            Ccy::ADA => {
                proof {
                    reveal_strlit("ADA");
                }
                "ADA"
            },
            Ccy::BCH => {
                proof {
                    reveal_strlit("BCH");
                }
                "BCH"
            },
            Ccy::BEST => {
                proof {
                    reveal_strlit("BEST");
                }
                "BEST"
            },
            Ccy::BTC => {
                proof {
                    reveal_strlit("BTC");
                }
                "BTC"
            },
            Ccy::CHF => {
                proof {
                    reveal_strlit("CHF");
                }
                "CHF"
            },
            Ccy::CHZ => {
                proof {
                    reveal_strlit("CHZ");
                }
                "CHZ"
            },
            Ccy::DOGE => {
                proof {
                    reveal_strlit("DOGE");
                }
                "DOGE"
            },
            Ccy::DOT => {
                proof {
                    reveal_strlit("DOT");
                }
                "DOT"
            },
            Ccy::EOS => {
                proof {
                    reveal_strlit("EOS");
                }
                "EOS"
            },
            Ccy::ETH => {
                proof {
                    reveal_strlit("ETH");
                }
                "ETH"
            },
            Ccy::EUR => {
                proof {
                    reveal_strlit("EUR");
                }
                "EUR"
            },
            Ccy::GBP => {
                proof {
                    reveal_strlit("GBP");
                }
                "GBP"
            },
            Ccy::LINK => {
                proof {
                    reveal_strlit("LINK");
                }
                "LINK"
            },
            Ccy::LTC => {
                proof {
                    reveal_strlit("LTC");
                }
                "LTC"
            },
            Ccy::MIOTA => {
                proof {
                    reveal_strlit("MIOTA");
                }
                "MIOTA"
            },
            Ccy::PAN => {
                proof {
                    reveal_strlit("PAN");
                }
                "PAN"
            },
            Ccy::TRX => {
                proof {
                    reveal_strlit("TRX");
                }
                "TRX"
            },
            Ccy::TRY => {
                proof {
                    reveal_strlit("TRY");
                }
                "TRY"
            },
            Ccy::UNI => {
                proof {
                    reveal_strlit("UNI");
                }
                "UNI"
            },
            Ccy::USDT => {
                proof {
                    reveal_strlit("USDT");
                }
                "USDT"
            },
            Ccy::XLM => {
                proof {
                    reveal_strlit("XLM");
                }
                "XLM"
            },
            Ccy::XRP => {
                proof {
                    reveal_strlit("XRP");
                }
                "XRP"
            },
            Ccy::XTZ => {
                proof {
                    reveal_strlit("XTZ");
                }
                "XTZ"
            },
        }
    }
}

} // verus!
