//! Type tag of a token: the fourteen reserved words, doubling as the
//! integer/real distinction for numeric tokens.
use vstd::prelude::*;
use crate::text::str_eq;

verus! {

#[derive(Debug, PartialEq, Eq, Clone, Copy, Structural)]
pub enum TokenType {
    Inicio,
    Varinicio,
    Varfim,
    Escreva,
    Leia,
    Se,
    Entao,
    Fimse,
    Repita,
    Fimrepita,
    Fim,
    Inteiro,
    Literal,
    Real,
}

pub open spec fn spec_type_from_lexeme(s: Seq<char>) -> Option<TokenType> {
    if s == "inicio"@ {
        Some(TokenType::Inicio)
    } else if s == "varinicio"@ {
        Some(TokenType::Varinicio)
    } else if s == "varfim"@ {
        Some(TokenType::Varfim)
    } else if s == "escreva"@ {
        Some(TokenType::Escreva)
    } else if s == "leia"@ {
        Some(TokenType::Leia)
    } else if s == "se"@ {
        Some(TokenType::Se)
    } else if s == "entao"@ {
        Some(TokenType::Entao)
    } else if s == "fimse"@ {
        Some(TokenType::Fimse)
    } else if s == "repita"@ {
        Some(TokenType::Repita)
    } else if s == "fimrepita"@ {
        Some(TokenType::Fimrepita)
    } else if s == "fim"@ {
        Some(TokenType::Fim)
    } else if s == "inteiro"@ {
        Some(TokenType::Inteiro)
    } else if s == "literal"@ {
        Some(TokenType::Literal)
    } else if s == "real"@ {
        Some(TokenType::Real)
    } else {
        None
    }
}

pub open spec fn spec_type_to_str(token_type: Option<TokenType>) -> Seq<char> {
    match token_type {
        Some(TokenType::Inicio) => "inicio"@,
        Some(TokenType::Varinicio) => "varinicio"@,
        Some(TokenType::Varfim) => "varfim"@,
        Some(TokenType::Escreva) => "escreva"@,
        Some(TokenType::Leia) => "leia"@,
        Some(TokenType::Se) => "se"@,
        Some(TokenType::Entao) => "entao"@,
        Some(TokenType::Fimse) => "fimse"@,
        Some(TokenType::Repita) => "repita"@,
        Some(TokenType::Fimrepita) => "fimrepita"@,
        Some(TokenType::Fim) => "fim"@,
        Some(TokenType::Inteiro) => "inteiro"@,
        Some(TokenType::Literal) => "literal"@,
        Some(TokenType::Real) => "real"@,
        None => "Null"@,
    }
}

impl TokenType {
    pub fn from_lexeme(lexeme: &str) -> (r: Option<TokenType>)
        ensures
            r == spec_type_from_lexeme(lexeme@),
    {
        if str_eq(lexeme, "inicio") {
            Some(TokenType::Inicio)
        } else if str_eq(lexeme, "varinicio") {
            Some(TokenType::Varinicio)
        } else if str_eq(lexeme, "varfim") {
            Some(TokenType::Varfim)
        } else if str_eq(lexeme, "escreva") {
            Some(TokenType::Escreva)
        } else if str_eq(lexeme, "leia") {
            Some(TokenType::Leia)
        } else if str_eq(lexeme, "se") {
            Some(TokenType::Se)
        } else if str_eq(lexeme, "entao") {
            Some(TokenType::Entao)
        } else if str_eq(lexeme, "fimse") {
            Some(TokenType::Fimse)
        } else if str_eq(lexeme, "repita") {
            Some(TokenType::Repita)
        } else if str_eq(lexeme, "fimrepita") {
            Some(TokenType::Fimrepita)
        } else if str_eq(lexeme, "fim") {
            Some(TokenType::Fim)
        } else if str_eq(lexeme, "inteiro") {
            Some(TokenType::Inteiro)
        } else if str_eq(lexeme, "literal") {
            Some(TokenType::Literal)
        } else if str_eq(lexeme, "real") {
            Some(TokenType::Real)
        } else {
            None
        }
    }

    pub fn to_str(token_type: Option<TokenType>) -> (r: String)
        ensures
            r@ == spec_type_to_str(token_type),
    {
        match token_type {
            Some(TokenType::Inicio) => "inicio".to_owned(),
            Some(TokenType::Varinicio) => "varinicio".to_owned(),
            Some(TokenType::Varfim) => "varfim".to_owned(),
            Some(TokenType::Escreva) => "escreva".to_owned(),
            Some(TokenType::Leia) => "leia".to_owned(),
            Some(TokenType::Se) => "se".to_owned(),
            Some(TokenType::Entao) => "entao".to_owned(),
            Some(TokenType::Fimse) => "fimse".to_owned(),
            Some(TokenType::Repita) => "repita".to_owned(),
            Some(TokenType::Fimrepita) => "fimrepita".to_owned(),
            Some(TokenType::Fim) => "fim".to_owned(),
            Some(TokenType::Inteiro) => "inteiro".to_owned(),
            Some(TokenType::Literal) => "literal".to_owned(),
            Some(TokenType::Real) => "real".to_owned(),
            None => "Null".to_owned(),
        }
    }
}

} // verus!
