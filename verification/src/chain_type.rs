//! The kind of chain that a node runs.

use never_type::Never;
use std::str::FromStr;
use vstd::prelude::*;
use vstd::string::StringExecFns;

verus! {

/// `never_type::Never`, an enum without variants: the error of a conversion
/// that cannot fail. It is declared so that `from_str` can name it; nothing is
/// claimed of it.
#[verifier::external_type_specification]
#[verifier::external_body]
pub struct ExNever(Never);

/// The kind of chain: one of five chains that are built in, or a chain whose
/// scheme is read from a file.
#[derive(Clone, Debug, PartialEq)]
pub enum ChainType {
    Mainnet,
    Solo,
    Tendermint,
    Corgi,
    Beagle,
    Custom(String),
}

/// A chain type, with the name of a custom chain as a sequence of characters.
pub enum ChainName {
    Mainnet,
    Solo,
    Tendermint,
    Corgi,
    Beagle,
    Custom(Seq<char>),
}

impl ChainName {
    /// The chain type that `name` stands for: a built-in chain by its name,
    /// and for any other text the custom chain of that name.
    pub open spec fn named(name: Seq<char>) -> ChainName {
        if name == "mainnet"@ {
            ChainName::Mainnet
        } else if name == "solo"@ {
            ChainName::Solo
        } else if name == "tendermint"@ {
            ChainName::Tendermint
        } else if name == "corgi"@ {
            ChainName::Corgi
        } else if name == "beagle"@ {
            ChainName::Beagle
        } else {
            ChainName::Custom(name)
        }
    }

    /// The text that a chain type is written as.
    pub open spec fn text(self) -> Seq<char> {
        match self {
            ChainName::Mainnet => "mainnet"@,
            ChainName::Solo => "solo"@,
            ChainName::Tendermint => "tendermint"@,
            ChainName::Corgi => "corgi"@,
            ChainName::Beagle => "beagle"@,
            ChainName::Custom(name) => name,
        }
    }

    /// Whether `name` is the name of a built-in chain.
    pub open spec fn is_builtin(name: Seq<char>) -> bool {
        name == "mainnet"@ || name == "solo"@ || name == "tendermint"@ || name == "corgi"@ || name
            == "beagle"@
    }
}

impl View for ChainType {
    type V = ChainName;

    open spec fn view(&self) -> ChainName {
        match self {
            ChainType::Mainnet => ChainName::Mainnet,
            ChainType::Solo => ChainName::Solo,
            ChainType::Tendermint => ChainName::Tendermint,
            ChainType::Corgi => ChainName::Corgi,
            ChainType::Beagle => ChainName::Beagle,
            ChainType::Custom(name) => ChainName::Custom(name@),
        }
    }
}

/// Where the scheme of a chain comes from.
#[derive(Clone, Debug, PartialEq)]
pub enum SchemeSource {
    /// The scheme of a built-in chain.
    Builtin(ChainType),
    /// The scheme in the file of this name.
    File(String),
}

/// Whether `a` and `b` hold the same text.
fn same_text(a: &str, b: &str) -> (r: bool)
    ensures
        r == (a@ == b@),
{
    let a = a.to_owned();
    let b = b.to_owned();
    a == b
}

impl Default for ChainType {
    /// The chain that a node runs when none is named.
    fn default() -> (r: Self)
        ensures
            r == ChainType::Tendermint,
    {
        ChainType::Tendermint
    }
}

impl ChainType {
    /// The chain type that `s` names. Every text names one: the five built-in
    /// chains by their names, any other text a custom chain.
    pub fn parse(s: &str) -> (r: Self)
        ensures
            r@ == ChainName::named(s@),
    {
        if same_text(s, "mainnet") {
            ChainType::Mainnet
        } else if same_text(s, "solo") {
            ChainType::Solo
        } else if same_text(s, "tendermint") {
            ChainType::Tendermint
        } else if same_text(s, "corgi") {
            ChainType::Corgi
        } else if same_text(s, "beagle") {
            ChainType::Beagle
        } else {
            ChainType::Custom(s.to_owned())
        }
    }

    /// The text that this chain type is written as: the name of a built-in
    /// chain, or the name that a custom chain was given.
    pub fn to_string(&self) -> (r: String)
        ensures
            r@ == self@.text(),
    {
        match self {
            ChainType::Mainnet => "mainnet".to_owned(),
            ChainType::Solo => "solo".to_owned(),
            ChainType::Tendermint => "tendermint".to_owned(),
            ChainType::Corgi => "corgi".to_owned(),
            ChainType::Beagle => "beagle".to_owned(),
            ChainType::Custom(custom) => custom.clone(),
        }
    }

    /// Where the scheme of this chain comes from: a built-in chain has a
    /// scheme of its own, a custom chain names the file that holds its scheme.
    pub fn scheme(&self) -> (r: SchemeSource)
        ensures
            match r {
                SchemeSource::Builtin(chain) => chain@ == self@ && !(self@ is Custom),
                SchemeSource::File(filename) => self@ == ChainName::Custom(filename@),
            },
    {
        match self {
            ChainType::Mainnet => SchemeSource::Builtin(ChainType::Mainnet),
            ChainType::Solo => SchemeSource::Builtin(ChainType::Solo),
            ChainType::Tendermint => SchemeSource::Builtin(ChainType::Tendermint),
            ChainType::Corgi => SchemeSource::Builtin(ChainType::Corgi),
            ChainType::Beagle => SchemeSource::Builtin(ChainType::Beagle),
            ChainType::Custom(filename) => SchemeSource::File(filename.clone()),
        }
    }

    /// The message for a scheme file that could not be opened.
    pub fn load_error(filename: &str, cause: &str) -> (r: String)
        ensures
            r@ == "Could not load specification file at "@ + filename@ + ": "@ + cause@,
    {
        let message = "Could not load specification file at ".to_owned();
        let message = message.concat(filename);
        let message = message.concat(": ");
        message.concat(cause)
    }
}

impl FromStr for ChainType {
    type Err = Never;

    /// The chain type that `s` names; this never fails.
    fn from_str(s: &str) -> (r: Result<Self, Never>)
        ensures
            r is Ok,
            r->Ok_0@ == ChainName::named(s@),
    {
        Ok(ChainType::parse(s))
    }
}

/// Writing a chain type and reading it back gives the same chain type, unless
/// it is a custom chain that bears the name of a built-in one.
pub proof fn law_text_round_trip(chain: ChainName)
    requires
        chain matches ChainName::Custom(name) ==> !ChainName::is_builtin(name),
    ensures
        ChainName::named(chain.text()) == chain,
{
    reveal_strlit("mainnet");
    reveal_strlit("solo");
    reveal_strlit("tendermint");
    reveal_strlit("corgi");
    reveal_strlit("beagle");
    assert("mainnet"@.len() == 7 && "solo"@.len() == 4 && "tendermint"@.len() == 10);
    assert("corgi"@[0] == 'c' && "beagle"@.len() == 6 && "corgi"@.len() == 5);
}

} // verus!
