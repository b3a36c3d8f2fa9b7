//! A compiler for a small C-like language. A source text is lexed, parsed
//! and typed; the typed program is lowered through RTL, ERTL and LTL, with
//! liveness analysis, an interference graph and register coloring on the
//! way, to linear x86-64 assembly. The typed program and its RTL can be
//! run by an interpreter.

pub mod coloring;
pub mod common;
pub mod ertl;
pub mod interference;
pub mod lexer;
pub mod linearise;
pub mod liveness;
pub mod ltl;
pub mod parser;
pub mod rtl;
pub mod typer;
pub mod utils;

use crate::common::Stdout;
use crate::ertl::{ertl_file, ErtlResult};
use crate::linearise::x86_64::Program;
use crate::linearise::{linearise, LinearisingResult};
use crate::ltl::{ltl_file, LtlResult};
use crate::parser::{parse_file, ParserResult};
use crate::rtl::interpreter::{interp_rtl_file, RtlInterpreterResult};
use crate::rtl::structure::Supply;
use crate::rtl::{rtl_file, RtlResult};
use crate::typer::context::FileContext;
use crate::typer::interpreter::{interp_typed_file, TyperInterpreterResult};
use crate::typer::{typ_file, TypResult};
use vstd::prelude::*;
use vstd::string::StringSliceAdditionalSpecFns;

verus! {

/// Parses a source text: see `parse_file`.
pub fn minic_parse(input: &str) -> (r: ParserResult<parser::structure::File>)
    ensures
        if input.spec_bytes().len() < usize::MAX - 8 {
            match crate::parser::model::file_model(
                input.spec_bytes(),
                crate::lexer::lex_model(input.spec_bytes(), 0, Seq::empty()),
            ) {
                Some(file) => r is Ok && r->Ok_0@ == file,
                None => r is Err && r->Err_0 == crate::parser::error::ParserError::Syntax,
            }
        } else {
            r is Err && r->Err_0 == crate::parser::error::ParserError::TooLong
        },
{
    parse_file(input)
}

impl parser::structure::File {
    /// Types the program in the context of an empty file: see `typ_file`.
    pub fn minic_typ(&self) -> (r: TypResult<typer::structure::File>)
        ensures
            exists|context: FileContext|
                #![trigger crate::typer::context::initial(context)]
                crate::typer::context::initial(context) && match r {
                    Ok(typed) => crate::typer::rules::file_ok(context, *self, typed),
                    Err(error) => crate::typer::rules::file_err(context, *self, error),
                },
    {
        typ_file(FileContext::default(), self)
    }
}

impl typer::structure::File {
    /// Runs the typed program for at most `fuel` steps: see
    /// `interp_typed_file`.
    pub fn minic_interp(&self, fuel: u64) -> (r: TyperInterpreterResult<Stdout>)
        ensures
            match crate::typer::interpreter::model::file_model(self.funs@, fuel as nat) {
                Ok(written) => r is Ok && r->Ok_0@ == written,
                Err(error) => r is Err && r->Err_0 == error,
            },
    {
        interp_typed_file(self, fuel)
    }

    /// Lowers the typed program to RTL: see `rtl_file`.
    pub fn minic_rtl(&self, supply: &mut Supply) -> (r: RtlResult<rtl::structure::File>)
        ensures
            match crate::rtl::model::rtl_file_model(*self, *old(supply), Seq::empty(), 0) {
                Ok((funs, next)) => r is Ok && r->Ok_0@ == funs && *final(supply) == next,
                Err(error) => r is Err && r->Err_0 == error,
            },
    {
        rtl_file(self, supply)
    }
}

impl rtl::structure::File {
    /// Runs the RTL program for at most `fuel` steps: see `interp_rtl_file`.
    pub fn minic_interp(&self, fuel: u64) -> (r: RtlInterpreterResult<Stdout>)
        ensures
            match crate::rtl::interpreter::model::file_model(self@, fuel as nat) {
                Ok(written) => r is Ok && r->Ok_0@ == written,
                Err(error) => r is Err && r->Err_0 == error,
            },
    {
        interp_rtl_file(self, fuel)
    }

    /// Makes the calling convention explicit: see `ertl_file`.
    pub fn minic_ertl(&self, supply: &mut Supply) -> (r: ErtlResult<ertl::structure::File>)
        ensures
            match crate::ertl::model::ertl_file_model(
                self@,
                *old(supply),
                crate::ertl::model::orders_of(self@),
                Seq::empty(),
                0,
            ) {
                Ok((funs, next)) => r is Ok && r->Ok_0@ == funs && *final(supply) == next,
                Err(error) => r is Err && r->Err_0 == error,
            },
    {
        ertl_file(self, supply)
    }
}

impl ertl::structure::File {
    /// Allocates registers and lowers to LTL: see `ltl_file`.
    pub fn minic_ltl(&self, supply: &mut Supply) -> (r: LtlResult<ltl::structure::File>)
        ensures
            crate::ltl::ltl_file_post(
                self@,
                *old(supply),
                match r {
                    Ok(lowered) => Ok(lowered@),
                    Err(error) => Err(error),
                },
                *final(supply),
            ),
    {
        ltl_file(self, supply)
    }
}

impl ltl::structure::File {
    /// Lays the program out as assembly: see `linearise`.
    pub fn minic_linearise(&self) -> (r: LinearisingResult<Program>)
        ensures
            match crate::linearise::model::text_model(self@) {
                Ok(nodes) => r is Ok && r->Ok_0.sections@.len() == 2
                    && r->Ok_0.sections@[0] is Text && r->Ok_0.sections@[0]->Text_0@ == nodes
                    && r->Ok_0.sections@[1] is Data && r->Ok_0.sections@[1]->Data_0@
                    == Seq::<crate::linearise::x86_64::AsmNode>::empty(),
                Err(error) => r is Err && r->Err_0 == error,
            },
            r is Ok ==> crate::linearise::model::targeted(r->Ok_0.sections@[0]->Text_0@)
                && crate::linearise::clean(r->Ok_0.sections@[0]->Text_0@),
    {
        linearise(self)
    }
}

} // verus!
