use crate::file_format::Address;
use vstd::prelude::*;
use vstd::string::*;

verus! {

/// The canonical name of an entity: the address of the package that holds it,
/// the module name and the entity name (`<address>::<module>::<name>`).
#[derive(Debug, Clone, PartialEq, Eq)]
pub struct SymbolKey {
    pub address: Address,
    pub module: String,
    pub name: String,
}

/// Where in the input a problem was found: a package and one of its modules.
#[derive(Debug, Clone, PartialEq, Eq)]
pub struct Location {
    pub package: Address,
    pub module: String,
}

/// A construct of the binary format that the environment does not model.
#[derive(Debug, Clone, Copy, PartialEq, Eq, Structural)]
pub enum Unsupported {
    /// A struct declared native, without a field list.
    NativeStruct,
    /// The `signer` type.
    SignerType,
    /// An instruction that works on global storage.
    GlobalStorageInstruction,
}

/// Why building the environment failed. Every error aborts the whole build.
#[derive(Debug, Clone, PartialEq, Eq)]
pub enum PackageAnalyzerError {
    /// A module whose tables are out of bounds, or whose declared names do not
    /// agree with one another.
    MalformedInput(Location),
    /// A reference whose canonical key names no loaded entity.
    UnresolvedSymbol(SymbolKey),
    /// A construct outside the recognised set.
    UnsupportedConstruct(Unsupported, Location),
    /// Two entities that would be given the same canonical key.
    InvariantViolation(SymbolKey),
    /// A configuration that cannot be read.
    BadConfig(String),
}


/// The lower-case hexadecimal digit of `d`, for `d` below 16.
pub open spec fn hex_char(d: nat) -> char {
    if d < 10 {
        ((d + 48) as u8) as char
    } else {
        ((d + 87) as u8) as char
    }
}

/// The `n` lowest hexadecimal digits of `v`, most significant first.
pub open spec fn hex_digits(v: nat, n: nat) -> Seq<char>
    decreases n,
{
    if n == 0 {
        Seq::empty()
    } else {
        hex_digits(v / 16, (n - 1) as nat).push(hex_char(v % 16))
    }
}

/// An address as `0x` and 64 hexadecimal digits.
pub open spec fn address_text(a: Address) -> Seq<char> {
    seq!['0', 'x'] + hex_digits(a.hi as nat, 32) + hex_digits(a.lo as nat, 32)
}

fn hex_digit(d: u128) -> (r: &'static str)
    requires
        d < 16,
    ensures
        r@ == seq![hex_char(d as nat)],
{
    match d {
        0 => {
            proof {
                reveal_strlit("0");
            }
            "0"
        },
        1 => {
            proof {
                reveal_strlit("1");
            }
            "1"
        },
        2 => {
            proof {
                reveal_strlit("2");
            }
            "2"
        },
        3 => {
            proof {
                reveal_strlit("3");
            }
            "3"
        },
        4 => {
            proof {
                reveal_strlit("4");
            }
            "4"
        },
        5 => {
            proof {
                reveal_strlit("5");
            }
            "5"
        },
        6 => {
            proof {
                reveal_strlit("6");
            }
            "6"
        },
        7 => {
            proof {
                reveal_strlit("7");
            }
            "7"
        },
        8 => {
            proof {
                reveal_strlit("8");
            }
            "8"
        },
        9 => {
            proof {
                reveal_strlit("9");
            }
            "9"
        },
        10 => {
            proof {
                reveal_strlit("a");
            }
            "a"
        },
        11 => {
            proof {
                reveal_strlit("b");
            }
            "b"
        },
        12 => {
            proof {
                reveal_strlit("c");
            }
            "c"
        },
        13 => {
            proof {
                reveal_strlit("d");
            }
            "d"
        },
        14 => {
            proof {
                reveal_strlit("e");
            }
            "e"
        },
        _ => {
            proof {
                reveal_strlit("f");
            }
            "f"
        },
    }
}

fn append_hex(out: &mut String, v: u128, n: u32)
    ensures
        final(out)@ == old(out)@ + hex_digits(v as nat, n as nat),
    decreases n,
{
    if n > 0 {
        append_hex(out, v / 16, n - 1);
        out.append(hex_digit(v % 16));
        assert(hex_digits(v as nat, n as nat) == hex_digits((v / 16) as nat, (n - 1) as nat).push(hex_char((v % 16) as nat)));
    } else {
        assert(old(out)@ + hex_digits(v as nat, 0) =~= old(out)@);
    }
}

/// Renders an address as `0x` and 64 lower-case hexadecimal digits.
pub fn address_to_string(a: &Address) -> (r: String)
    ensures
        r@ == address_text(*a),
{
    let mut out = String::new();
    proof {
        reveal_strlit("0x");
    }
    out.append("0x");
    append_hex(&mut out, a.hi, 32);
    append_hex(&mut out, a.lo, 32);
    assert(out@ =~= address_text(*a));
    out
}

impl SymbolKey {
    /// The key as `<address>::<module>::<name>`.
    pub open spec fn canonical(&self) -> Seq<char> {
        address_text(self.address) + seq![':', ':'] + self.module@ + seq![':', ':'] + self.name@
    }

    /// Renders the key as `<address>::<module>::<name>`, the address as `0x`
    /// and 64 lower-case hexadecimal digits.
    pub fn to_canonical_string(&self) -> (r: String)
        ensures
            r@ == self.canonical(),
    {
        let mut out = String::new();
        proof {
            reveal_strlit("0x");
            reveal_strlit("::");
        }
        out.append("0x");
        append_hex(&mut out, self.address.hi, 32);
        append_hex(&mut out, self.address.lo, 32);
        out.append("::");
        out.append(self.module.as_str());
        out.append("::");
        out.append(self.name.as_str());
        assert(out@ =~= self.canonical());
        out
    }
}

} // verus!
