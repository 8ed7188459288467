//! Lexical classes: the token categories the scanner can emit. Each class
//! maps to the terminal name under which the Action table is consulted.
use vstd::prelude::*;
use crate::text::str_eq;

verus! {

#[derive(Clone, Copy, Debug, PartialEq, Eq, Structural)]
pub enum Class {
    Inicio,
    Varinicio,
    Varfim,
    Escreva,
    Leia,
    Se,
    Entao,
    Fimse,
    Repita,
    Fimrepita,
    Fim,
    Inteiro,
    Real,
    Literal,
    Id,
    Num,
    Lit,
    Opr,
    Rcb,
    Opm,
    Abp,
    Fcp,
    Ptv,
    Vir,
    Eof,
    Erro,
}

/// The class a lexeme carries on its own: reserved words and the synthetic
/// end-of-input marker have one, everything else is classified by the DFA.
pub open spec fn spec_class_from_lexeme(s: Seq<char>) -> Option<Class> {
    if s == "inicio"@ {
        Some(Class::Inicio)
    } else if s == "varinicio"@ {
        Some(Class::Varinicio)
    } else if s == "varfim"@ {
        Some(Class::Varfim)
    } else if s == "escreva"@ {
        Some(Class::Escreva)
    } else if s == "leia"@ {
        Some(Class::Leia)
    } else if s == "se"@ {
        Some(Class::Se)
    } else if s == "entao"@ {
        Some(Class::Entao)
    } else if s == "fimse"@ {
        Some(Class::Fimse)
    } else if s == "repita"@ {
        Some(Class::Repita)
    } else if s == "fimrepita"@ {
        Some(Class::Fimrepita)
    } else if s == "fim"@ {
        Some(Class::Fim)
    } else if s == "inteiro"@ {
        Some(Class::Inteiro)
    } else if s == "real"@ {
        Some(Class::Real)
    } else if s == "literal"@ {
        Some(Class::Literal)
    } else if s == "eof"@ {
        Some(Class::Eof)
    } else {
        None
    }
}

/// The terminal name of a class, as the Action table's header spells it.
pub open spec fn spec_class_to_str(class: Option<Class>) -> Seq<char> {
    match class {
        Some(Class::Inicio) => "inicio"@,
        Some(Class::Varinicio) => "varinicio"@,
        Some(Class::Varfim) => "varfim"@,
        Some(Class::Escreva) => "escreva"@,
        Some(Class::Leia) => "leia"@,
        Some(Class::Se) => "se"@,
        Some(Class::Entao) => "entao"@,
        Some(Class::Fimse) => "fimse"@,
        Some(Class::Repita) => "repita"@,
        Some(Class::Fimrepita) => "fimrepita"@,
        Some(Class::Fim) => "fim"@,
        Some(Class::Inteiro) => "inteiro"@,
        Some(Class::Real) => "real"@,
        Some(Class::Literal) => "literal"@,
        Some(Class::Id) => "id"@,
        Some(Class::Num) => "num"@,
        Some(Class::Lit) => "lit"@,
        Some(Class::Opr) => "opr"@,
        Some(Class::Rcb) => "rcb"@,
        Some(Class::Opm) => "opm"@,
        Some(Class::Abp) => "ab_p"@,
        Some(Class::Fcp) => "fc_p"@,
        Some(Class::Ptv) => "pt_v"@,
        Some(Class::Vir) => "vir"@,
        Some(Class::Eof) => "eof"@,
        Some(Class::Erro) => "erro"@,
        None => "Null"@,
    }
}

impl Class {
    pub fn from_lexeme(lexeme: &str) -> (r: Option<Class>)
        ensures
            r == spec_class_from_lexeme(lexeme@),
    {
        if str_eq(lexeme, "inicio") {
            Some(Class::Inicio)
        } else if str_eq(lexeme, "varinicio") {
            Some(Class::Varinicio)
        } else if str_eq(lexeme, "varfim") {
            Some(Class::Varfim)
        } else if str_eq(lexeme, "escreva") {
            Some(Class::Escreva)
        } else if str_eq(lexeme, "leia") {
            Some(Class::Leia)
        } else if str_eq(lexeme, "se") {
            Some(Class::Se)
        } else if str_eq(lexeme, "entao") {
            Some(Class::Entao)
        } else if str_eq(lexeme, "fimse") {
            Some(Class::Fimse)
        } else if str_eq(lexeme, "repita") {
            Some(Class::Repita)
        } else if str_eq(lexeme, "fimrepita") {
            Some(Class::Fimrepita)
        } else if str_eq(lexeme, "fim") {
            Some(Class::Fim)
        } else if str_eq(lexeme, "inteiro") {
            Some(Class::Inteiro)
        } else if str_eq(lexeme, "real") {
            Some(Class::Real)
        } else if str_eq(lexeme, "literal") {
            Some(Class::Literal)
        } else if str_eq(lexeme, "eof") {
            Some(Class::Eof)
        } else {
            None
        }
    }

    pub fn to_str(class: Option<Class>) -> (r: String)
        ensures
            r@ == spec_class_to_str(class),
    {
        match class {
            Some(Class::Inicio) => "inicio".to_owned(),
            Some(Class::Varinicio) => "varinicio".to_owned(),
            Some(Class::Varfim) => "varfim".to_owned(),
            Some(Class::Escreva) => "escreva".to_owned(),
            Some(Class::Leia) => "leia".to_owned(),
            Some(Class::Se) => "se".to_owned(),
            Some(Class::Entao) => "entao".to_owned(),
            Some(Class::Fimse) => "fimse".to_owned(),
            Some(Class::Repita) => "repita".to_owned(),
            Some(Class::Fimrepita) => "fimrepita".to_owned(),
            Some(Class::Fim) => "fim".to_owned(),
            Some(Class::Inteiro) => "inteiro".to_owned(),
            Some(Class::Real) => "real".to_owned(),
            Some(Class::Literal) => "literal".to_owned(),
            Some(Class::Id) => "id".to_owned(),
            Some(Class::Num) => "num".to_owned(),
            Some(Class::Lit) => "lit".to_owned(),
            Some(Class::Opr) => "opr".to_owned(),
            Some(Class::Rcb) => "rcb".to_owned(),
            Some(Class::Opm) => "opm".to_owned(),
            Some(Class::Abp) => "ab_p".to_owned(),
            Some(Class::Fcp) => "fc_p".to_owned(),
            Some(Class::Ptv) => "pt_v".to_owned(),
            Some(Class::Vir) => "vir".to_owned(),
            Some(Class::Eof) => "eof".to_owned(),
            Some(Class::Erro) => "erro".to_owned(),
            None => "Null".to_owned(),
        }
    }
}

} // verus!
