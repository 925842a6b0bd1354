//! A dice-roll expression engine: a grammar and parser for expressions such
//! as `1d3 + (3d4 * 2d20)`, a two-phase evaluator that replaces symbolic dice
//! specs by freshly rolled values, and a renderer that turns a rolled tree
//! into a display string and a signed 64-bit total.

mod ast;
mod errors;
mod eval;
mod laws;
mod lexer;
mod parser;
mod record;
mod render;
mod rolls;
mod value;

pub use ast::BinaryOperator;
pub use ast::Dices;
pub use ast::Expr;
pub use ast::UnaryOperator;
pub use ast::dices_valid;
pub use ast::lemma_rerolls_isomorphic;
pub use ast::rolled_from;
pub use ast::same_shape;
pub use errors::ArithmeticKind;
pub use errors::RollError;
pub use eval::lemma_dice_outcome;
pub use eval::roll_records;
pub use laws::lemma_single_die;
pub use lexer::Calculator;
pub use lexer::Token;
pub use lexer::TokenKind;
pub use lexer::digit_val;
pub use lexer::digits_len;
pub use lexer::digits_val;
pub use lexer::is_digit;
pub use lexer::is_space;
pub use lexer::punct_kind;
pub use lexer::spec_tokens;
pub use parser::advance;
pub use parser::binop_of;
pub use parser::is_add_kind;
pub use parser::is_mul_kind;
pub use parser::parse_expr;
pub use parser::parse_text;
pub use parser::spec_expr;
pub use parser::spec_expr_tail;
pub use parser::spec_parse;
pub use parser::spec_primary;
pub use parser::spec_term_tail;
pub use parser::spec_parse_text;
pub use record::LogError;
pub use record::MemoryRecorder;
pub use record::RejectingRecorder;
pub use record::Roll;
pub use record::RollRecorder;
pub use render::binop_char;
pub use render::dec_str;
pub use render::digit_char;
pub use render::spec_render;
pub use render::spec_render_rolls;
pub use rolls::RollOutput;
pub use rolls::output_ok;
pub use rolls::outputs_records;
pub use rolls::roll;
pub use rolls::roll_twice;
pub use value::apply_binop;
pub use value::fits_i64;
pub use value::lemma_division_by_zero;
pub use value::lemma_literal_value;
pub use value::lemma_value_error_is_arithmetic;
pub use value::spec_value;
pub use value::spec_value_of;
pub use value::sum_rolls;
pub use value::tdiv;
pub use value::uses_zero_divisor;
pub use value::tmod;
pub use value::value_error;
