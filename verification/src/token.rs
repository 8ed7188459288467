//! The token record handed from the scanner to the parser: an optional
//! lexical class, the raw lexeme, and a type tag for reserved words and
//! numbers.
use vstd::prelude::*;
use crate::class::Class;
use crate::class::spec_class_from_lexeme;
use crate::token_type::TokenType;
use crate::token_type::spec_type_from_lexeme;

verus! {

#[derive(Clone, Debug)]
pub struct Token {
    pub class: Option<Class>,
    pub lexeme: Option<String>,
    pub token_type: Option<TokenType>,
}

/// Mathematical image of a token: the lexeme as a character sequence.
pub ghost struct TokenV {
    pub class: Option<Class>,
    pub lexeme: Option<Seq<char>>,
    pub token_type: Option<TokenType>,
}

impl View for Token {
    type V = TokenV;

    open spec fn view(&self) -> TokenV {
        TokenV {
            class: self.class,
            lexeme: match self.lexeme {
                Some(s) => Some(s@),
                None => None,
            },
            token_type: self.token_type,
        }
    }
}

impl DeepView for Token {
    type V = TokenV;

    open spec fn deep_view(&self) -> TokenV {
        self.view()
    }
}

/// The token a bare lexeme denotes: class and type looked up from the
/// reserved-word spellings, the text kept as is.
pub open spec fn spec_token_from_lexeme(s: Seq<char>) -> TokenV {
    TokenV {
        class: spec_class_from_lexeme(s),
        lexeme: Some(s),
        token_type: spec_type_from_lexeme(s),
    }
}

impl Token {
    pub fn new(class: Option<Class>, lexeme: Option<String>, token_type: Option<TokenType>) -> (r:
        Token)
        ensures
            r.class == class,
            r.lexeme == lexeme,
            r.token_type == token_type,
    {
        Token { class, lexeme, token_type }
    }

    pub fn new_from_lexeme(lexeme: &str) -> (r: Token)
        ensures
            r@ == spec_token_from_lexeme(lexeme@),
    {
        Token {
            class: Class::from_lexeme(lexeme),
            lexeme: Some(lexeme.to_owned()),
            token_type: TokenType::from_lexeme(lexeme),
        }
    }

    /// A fresh token equal to the one referenced, field for field.
    pub fn new_from_ref(token: &Token) -> (r: Token)
        ensures
            r == *token,
    {
        let lexeme: Option<String> = match &token.lexeme {
            Some(s) => Some(s.clone()),
            None => None,
        };
        Token { class: token.class, lexeme, token_type: token.token_type }
    }
}

} // verus!
