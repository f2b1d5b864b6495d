//! The main function of a program for the machine.

use crate::text;
use vstd::prelude::*;

verus! {

/// What counts of the signature of a function that is to be the main function.
#[derive(Debug)]
pub struct MainSignature {
    pub name: String,
    pub is_const: bool,
    pub is_async: bool,
    pub inputs: usize,
    pub generics: usize,
}

/// Why a function cannot be the main function, if it cannot: the first reason counts.
pub open spec fn objection(sig: MainSignature) -> Option<Seq<char>> {
    if sig.name@ != "main"@ {
        Some("#[hecate::main] must be used on a function named `main`"@)
    } else if sig.is_const {
        Some("const main is not supported"@)
    } else if sig.is_async {
        Some("async main is not supported"@)
    } else if sig.inputs > 0 {
        Some("main function must not accept arguments"@)
    } else if sig.generics > 0 {
        Some("generic main is not supported"@)
    } else {
        None
    }
}

/// Which part of a signature an objection is about.
#[derive(Debug, Clone, Copy, PartialEq, Eq, Structural)]
pub enum SignaturePart {
    Name,
    Constness,
    Asyncness,
    Inputs,
    Generics,
}

/// The part of a signature that the objection is about, and the objection, if there is one.
pub fn check_main(sig: &MainSignature) -> (result: Result<(), (SignaturePart, String)>)
    ensures
        match result {
            Ok(()) => objection(*sig) is None,
            Err((part, message)) => {
                &&& objection(*sig) == Some(message@)
                &&& part == (if sig.name@ != "main"@ {
                    SignaturePart::Name
                } else if sig.is_const {
                    SignaturePart::Constness
                } else if sig.is_async {
                    SignaturePart::Asyncness
                } else if sig.inputs > 0 {
                    SignaturePart::Inputs
                } else {
                    SignaturePart::Generics
                })
            },
        },
{
    if !text::same(sig.name.as_str(), "main") {
        return Err(
            (
                SignaturePart::Name,
                "#[hecate::main] must be used on a function named `main`".to_owned(),
            ),
        );
    }
    if sig.is_const {
        return Err((SignaturePart::Constness, "const main is not supported".to_owned()));
    }
    if sig.is_async {
        return Err((SignaturePart::Asyncness, "async main is not supported".to_owned()));
    }
    if sig.inputs > 0 {
        return Err(
            (SignaturePart::Inputs, "main function must not accept arguments".to_owned()),
        );
    }
    if sig.generics > 0 {
        return Err((SignaturePart::Generics, "generic main is not supported".to_owned()));
    }
    Ok(())
}

/// A function can be the main function if it is called so, is neither constant nor asynchronous,
/// and takes no arguments of either kind; otherwise the objection is to the first of these, in
/// this order, that it does not keep to.
pub proof fn law_objections(sig: MainSignature)
    ensures
        objection(sig) is None <==> sig.name@ == "main"@ && !sig.is_const && !sig.is_async
            && sig.inputs == 0 && sig.generics == 0,
        sig.name@ != "main"@ ==> objection(sig) == Some(
            "#[hecate::main] must be used on a function named `main`"@,
        ),
        sig.name@ == "main"@ && sig.is_const ==> objection(sig) == Some(
            "const main is not supported"@,
        ),
        sig.name@ == "main"@ && !sig.is_const && sig.is_async ==> objection(sig) == Some(
            "async main is not supported"@,
        ),
        sig.name@ == "main"@ && !sig.is_const && !sig.is_async && sig.inputs > 0 ==> objection(sig)
            == Some("main function must not accept arguments"@),
        sig.name@ == "main"@ && !sig.is_const && !sig.is_async && sig.inputs == 0 && sig.generics
            > 0 ==> objection(sig) == Some("generic main is not supported"@),
{
}

} // verus!
