use crate::text::push_str;
use vstd::prelude::*;

verus! {

/// What can go wrong when a binary is inspected.
#[derive(Clone, Debug)]
pub enum CargoAsmError {
    /// No symbol answers to the search string.
    NoSymbolMatch(String),
    /// The container of the binary is not one that can be read.
    UnsupportedBinaryFormat(&'static str),
    /// The container is known, but the operation is not available for it.
    UnsupportedBinaryFormatOp(&'static str, &'static str),
    /// The build of the package makes no program.
    NoCargoBinary,
    /// The container or its debug information could not be parsed.
    Malformed(String),
    /// The decoder of instructions failed.
    Decoder(String),
}

/// The message of an error.
pub open spec fn error_message(e: CargoAsmError) -> Seq<char> {
    match e {
        CargoAsmError::NoSymbolMatch(search_string) => "no symbol matched the search string `"@
            + search_string@ + "`"@,
        CargoAsmError::UnsupportedBinaryFormat(format) => "binary format `"@ + format@
            + "` not supported"@,
        CargoAsmError::UnsupportedBinaryFormatOp(format, operation) => {
            if operation@.len() == 0 {
                "binary format `"@ + format@ + "` not supported"@
            } else {
                "operation `"@ + operation@ + "` not supported for `"@ + format@
                    + "` binary format"@
            }
        },
        CargoAsmError::NoCargoBinary => "no cargo binary found"@,
        CargoAsmError::Malformed(message) => message@,
        CargoAsmError::Decoder(message) => message@,
    }
}

impl CargoAsmError {
    /// The message of the error, as it is shown to the user.
    pub fn message(&self) -> (r: String)
        ensures
            r@ == error_message(*self),
    {
        let mut out = String::new();
        match self {
            CargoAsmError::NoSymbolMatch(search_string) => {
                push_str(&mut out, "no symbol matched the search string `");
                push_str(&mut out, search_string.as_str());
                push_str(&mut out, "`");
                proof {
                    assert(out@ =~= error_message(*self));
                }
            },
            CargoAsmError::UnsupportedBinaryFormat(format) => {
                push_str(&mut out, "binary format `");
                push_str(&mut out, format);
                push_str(&mut out, "` not supported");
                proof {
                    assert(out@ =~= error_message(*self));
                }
            },
            CargoAsmError::UnsupportedBinaryFormatOp(format, operation) => {
                if operation.is_empty() {
                    push_str(&mut out, "binary format `");
                    push_str(&mut out, format);
                    push_str(&mut out, "` not supported");
                    proof {
                        assert(operation@.len() == 0);
                        assert(out@ =~= error_message(*self));
                    }
                } else {
                    push_str(&mut out, "operation `");
                    push_str(&mut out, operation);
                    push_str(&mut out, "` not supported for `");
                    push_str(&mut out, format);
                    push_str(&mut out, "` binary format");
                    proof {
                        assert(operation@.len() != 0);
                        assert(out@ =~= error_message(*self));
                    }
                }
            },
            CargoAsmError::NoCargoBinary => {
                push_str(&mut out, "no cargo binary found");
                proof {
                    assert(out@ =~= error_message(*self));
                }
            },
            CargoAsmError::Malformed(message) => {
                push_str(&mut out, message.as_str());
                proof {
                    assert(out@ =~= error_message(*self));
                }
            },
            CargoAsmError::Decoder(message) => {
                push_str(&mut out, message.as_str());
                proof {
                    assert(out@ =~= error_message(*self));
                }
            },
        }
        out
    }
}

} // verus!
