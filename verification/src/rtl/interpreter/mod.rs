pub mod context;
pub mod default;
pub mod error;
pub mod model;

use crate::common::{Ident, Stdout, Value, MALLOC, PUTCHAR};
use crate::common::{Bool, ToCBool};
use crate::rtl::interpreter::context::Context;
use crate::rtl::interpreter::default::{Malloc, Putchar};
use crate::rtl::interpreter::error::RtlInterpreterError;
use crate::rtl::interpreter::model::{
    bind_model, binop_model, call_model, file_model, fun_index, instr_model, run_model, shorter,
    unop_model, values_model, walk_model,
};
use crate::rtl::structure::label::Label;

use crate::rtl::structure::{File, Instr, MbBranch, Mbinop, MuBranch, Munop};
use vstd::prelude::*;

verus! {

pub type RtlInterpreterResult<T> = Result<T, RtlInterpreterError>;

/// The result of the unary operation `op` on `value`.
pub fn unop(op: Munop, value: Value) -> (r: Value)
    ensures
        r == unop_model(op, value),
{
    match op {
        Munop::Maddi(c) => value.wrapping_add(c),
        Munop::Msetei(c) => (value == c).to_minic_bool(),
        Munop::Msetnei(c) => (value != c).to_minic_bool(),
        Munop::Mneg => 0i64.wrapping_sub(value),
    }
}

/// The result of `dest op src`.
pub fn binop(op: Mbinop, src: Value, dest: Value) -> (r: Option<Value>)
    ensures
        r == binop_model(op, src, dest),
{
    match op {
        Mbinop::MMov => Some(src),
        Mbinop::MAdd => Some(dest.wrapping_add(src)),
        Mbinop::MSub => Some(dest.wrapping_sub(src)),
        Mbinop::MMul => Some(dest.wrapping_mul(src)),
        Mbinop::MDiv => dest.checked_div(src),
        Mbinop::MSete => Some((dest == src).to_minic_bool()),
        Mbinop::MSetne => Some((dest != src).to_minic_bool()),
        Mbinop::Msetl => Some((dest < src).to_minic_bool()),
        Mbinop::Msetle => Some((dest <= src).to_minic_bool()),
        Mbinop::Msetg => Some((dest > src).to_minic_bool()),
        Mbinop::Msetge => Some((dest >= src).to_minic_bool()),
    }
}

/// Runs one instruction that is no call, and returns the label at which
/// the run goes on.
pub fn interp_instr(context: &mut Context, instr: &Instr) -> (r: RtlInterpreterResult<Label>)
    ensures
        match instr_model(old(context)@, instr@) {
            Ok((after, next)) => r == Ok::<Label, RtlInterpreterError>(next) && final(context)@
                == after,
            Err(error) => r == Err::<Label, RtlInterpreterError>(error),
        },
{
    match instr {
        Instr::EConst(c, r, l) => {
            context.put(r, *c);
            Ok(*l)
        },
        Instr::ELoad(addr, off, dest, l) => {
            let value = context.load(addr, off)?;
            context.put(dest, value);
            Ok(*l)
        },
        Instr::EStore(value, addr, off, l) => {
            let value = context.get(value);
            context.store(addr, off, &value)?;
            Ok(*l)
        },
        Instr::EMUnop(op, r, l) => {
            let value = context.get(r);
            context.put(r, unop(*op, value));
            Ok(*l)
        },
        Instr::EMBinop(op, src, dest, l) => {
            match binop(*op, context.get(src), context.get(dest)) {
                Some(value) => {
                    context.put(dest, value);
                    Ok(*l)
                },
                None => Err(RtlInterpreterError::DivisionError),
            }
        },
        Instr::EMuBranch(op, r, l1, l2) => {
            let value = context.get(r);
            let taken = match op {
                MuBranch::MJz => !value.to_bool(),
                MuBranch::MJnz => value.to_bool(),
                MuBranch::MJlei(c) => value <= *c,
                MuBranch::MJgi(c) => value > *c,
            };
            if taken {
                Ok(*l1)
            } else {
                Ok(*l2)
            }
        },
        Instr::EMbBranch(op, r1, r2, l1, l2) => {
            let first = context.get(r1);
            let second = context.get(r2);
            let taken = match op {
                MbBranch::MJl => first < second,
                MbBranch::MJle => first <= second,
            };
            if taken {
                Ok(*l1)
            } else {
                Ok(*l2)
            }
        },
        Instr::ECall(_, _, _, _) => Err(RtlInterpreterError::Other),
        Instr::EGoto(l) => Ok(*l),
    }
}

/// The place of the first function of `file` that is named `name`.
pub fn find_fun(file: &File, name: Ident) -> (r: Option<usize>)
    ensures
        match r {
            Some(index) => fun_index(file@, name, 0) == Some(index as int) && index
                < file.funs@.len(),
            None => fun_index(file@, name, 0) is None,
        },
{
    let mut i: usize = 0;
    while i < file.funs.len()
        invariant
            i <= file.funs@.len(),
            file@.len() == file.funs@.len(),
            fun_index(file@, name, 0) == fun_index(file@, name, i as int),
        decreases file.funs@.len() - i,
    {
        if file.funs[i].name == name {
            return Some(i);
        }
        i = i + 1;
    }
    None
}

/// A call of `name` on `values`: see `call_model`.
pub fn call(context: &mut Context, file: &File, name: Ident, values: &Vec<Value>, fuel: u64) -> (r:
    RtlInterpreterResult<(Value, u64)>)
    ensures
        match call_model(file@, old(context)@, name, values@, fuel as nat) {
            Ok((after, value, left_fuel)) => r == Ok::<(Value, u64), RtlInterpreterError>(
                (value, left_fuel as u64),
            ) && final(context)@ == after && left_fuel <= fuel,
            Err(error) => r == Err::<(Value, u64), RtlInterpreterError>(error),
        },
    decreases fuel, 2nat,
{
    if name.id == PUTCHAR {
        let value = if values.len() > 0 {
            values[0]
        } else {
            0
        };
        let result = Putchar::new().interp_fun(context, value);
        Ok((result, fuel))
    } else if name.id == MALLOC {
        let address = Malloc::new().interp_fun(context)?;
        Ok((address, fuel))
    } else {
        match find_fun(file, name) {
            Some(index) => {
                let fun = &file.funs[index];
                context.enter();
                let count = if fun.arguments.len() <= values.len() {
                    fun.arguments.len()
                } else {
                    values.len()
                };
                let ghost opened = context@;
                let mut i: usize = 0;
                while i < count
                    invariant
                        i <= count,
                        count == shorter(fun.arguments@.len(), values@.len()),
                        context@ == bind_model(opened, fun.arguments@, values@, i as nat),
                    decreases count - i,
                {
                    context.put(&fun.arguments[i], values[i]);
                    i = i + 1;
                }
                let left_fuel = run(context, file, index, fuel)?;
                let value = context.get(&fun.result);
                context.leave();
                Ok((value, left_fuel))
            },
            None => Err(RtlInterpreterError::FunctionDoesNotExist(name)),
        }
    }
}

/// A run of the function at `index` from its entry: see `run_model`.
pub fn run(context: &mut Context, file: &File, index: usize, fuel: u64) -> (r: RtlInterpreterResult<
    u64,
>)
    ensures
        match run_model(file@, old(context)@, index as int, fuel as nat) {
            Ok((after, left_fuel)) => r == Ok::<u64, RtlInterpreterError>(left_fuel as u64)
                && final(context)@ == after && left_fuel <= fuel,
            Err(error) => r == Err::<u64, RtlInterpreterError>(error),
        },
    decreases fuel, 1nat,
{
    if index >= file.funs.len() {
        return Err(RtlInterpreterError::Other);
    }
    let fun = &file.funs[index];
    let mut label = fun.entry;
    let mut left_fuel = fuel;
    while label != fun.exit
        invariant
            index < file.funs@.len(),
            file@.len() == file.funs@.len(),
            *fun == file.funs@[index as int],
            left_fuel <= fuel,
            walk_model(file@, old(context)@, index as int, fun.entry, fuel as nat) == walk_model(
                file@,
                context@,
                index as int,
                label,
                left_fuel as nat,
            ),
        decreases left_fuel,
    {
        if left_fuel == 0 {
            return Err(RtlInterpreterError::OutOfFuel);
        }
        match fun.graph.get(label) {
            Some(instr) => {
                match instr {
                    Instr::ECall(rd, name, args, l) => {
                        let mut values: Vec<Value> = Vec::new();
                        let mut i: usize = 0;
                        while i < args.len()
                            invariant
                                i <= args@.len(),
                                values@.len() == i,
                                forall|k: int| 0 <= k < i ==> values@[k] == context@.get(args@[k]),
                            decreases args@.len() - i,
                        {
                            values.push(context.get(&args[i]));
                            i = i + 1;
                        }
                        assert(values@ =~= values_model(context@, args@));
                        let (value, after_call) = call(context, file, *name, &values, left_fuel - 1)?;
                        context.put(rd, value);
                        label = *l;
                        left_fuel = after_call;
                    },
                    _ => {
                        label = interp_instr(context, instr)?;
                        left_fuel = left_fuel - 1;
                    },
                }
            },
            None => {
                return Err(RtlInterpreterError::NoSuchInstruction(label));
            },
        }
    }
    Ok(left_fuel)
}

/// Runs the program from `main` for at most `fuel` steps, and returns what
/// it has written.
pub fn interp_rtl_file(file: &File, fuel: u64) -> (r: RtlInterpreterResult<Stdout>)
    ensures
        match file_model(file@, fuel as nat) {
            Ok(written) => r is Ok && r->Ok_0@ == written,
            Err(error) => r is Err && r->Err_0 == error,
        },
{
    match find_fun(file, Ident::main()) {
        Some(index) => {
            let mut context = Context::new();
            run(&mut context, file, index, fuel)?;
            Ok(context.stdout)
        },
        None => Err(RtlInterpreterError::FunctionDoesNotExist(Ident::main())),
    }
}

} // verus!
