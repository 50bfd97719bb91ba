//! A textual notation engine for tabletop dice rolling and arithmetic.
//!
//! Raw command text is tokenized against a combined grammar (math tokens,
//! dice-operator tokens, narrative-dice tokens), parsed by a shunting-yard
//! operator-precedence parser into a typed token tree, and resolved into a
//! value: a number, a signed success count, or a tally of narrative symbols.
//! A bounded per-conversation history (the tray) stores each resolved roll
//! together with enough provenance to render both a terse summary and a full
//! per-die breakdown.

pub mod calculator;
pub mod command_translations;
pub mod dice_errors;
pub mod dice_re;
pub mod die;
pub mod genesymbols;
pub mod numtext;
pub mod parser;
pub mod pool;
pub mod rational;
pub mod roll;
pub mod roll_token;
pub mod roll_value;
pub mod rolling;
pub mod rpn_expression;
pub mod rpn_token;
pub mod token_kinds;
pub mod tray;
pub mod value_kinds;
