//! The compiler entry point: resolution, timeline construction and module
//! checks, in that order, stopping at the first error.
use crate::decl::{EnumFieldValue, Type};
use crate::error::{is_module_error, CompileError};
use crate::graph::{check_modules, modules_error, modules_ok};
use crate::resolve::{
    declarations_error, declarations_ok, field_resolved, item_ok, resolve_types, type_ok, type_resolved,
    variant_ok, variant_resolved,
};
use crate::overlap::Sibling;
use crate::range::lemma_resolve_fails_iff_violation;
use crate::timeline::{all_in_bounds, build_modules, range_in_bounds, timeline, types_wf, Module, ResolvedType};
use vstd::prelude::*;

verus! {

/// Whether `rs` holds the resolved ranges of every item of `types`.
pub open spec fn is_resolution(rs: Seq<ResolvedType>, types: Seq<Type>) -> bool {
    &&& rs.len() == types.len()
    &&& forall|t: int| 0 <= t < types.len() ==> #[trigger] type_resolved(rs[t], types, t)
}

/// The resolved ranges of a valid file lie within the accepted versions.
pub proof fn lemma_resolution_in_bounds(rs: Seq<ResolvedType>, types: Seq<Type>)
    requires
        declarations_ok(types),
        is_resolution(rs, types),
    ensures
        all_in_bounds(rs),
        types_wf(rs),
{
    assert forall|t: int| 0 <= t < rs.len() implies (#[trigger] rs[t]).range.wf() by {
        assert(type_resolved(rs[t], types, t));
        if let Some(h) = types[t].spec_header() {
            lemma_resolve_fails_iff_violation(h, None);
            assert(type_ok(types, t));
        }
    }
    assert forall|t: int| 0 <= t < rs.len() implies {
        &&& range_in_bounds(#[trigger] rs[t].range)
        &&& forall|f: int| 0 <= f < rs[t].fields@.len() ==> {
            &&& range_in_bounds(#[trigger] rs[t].fields@[f].range)
            &&& forall|s: int| 0 <= s < rs[t].fields@[f].inner@.len() ==> range_in_bounds(#[trigger] rs[t].fields@[f].inner@[s])
        }
    } by {
        assert(type_ok(types, t));
        assert(type_resolved(rs[t], types, t));
        let container = rs[t].range;
        assert forall|f: int| 0 <= f < rs[t].fields@.len() implies {
            &&& range_in_bounds(#[trigger] rs[t].fields@[f].range)
            &&& forall|s: int| 0 <= s < rs[t].fields@[f].inner@.len() ==> range_in_bounds(#[trigger] rs[t].fields@[f].inner@[s])
        } by {
            match types[t] {
                Type::Node(s) => {
                    assert(field_resolved(rs[t].fields@[f], s.fields@, container, f));
                    assert(item_ok(s.fields@, Some(container), f));
                },
                Type::Struct(s) => {
                    assert(field_resolved(rs[t].fields@[f], s.fields@, container, f));
                    assert(item_ok(s.fields@, Some(container), f));
                },
                Type::Enum(e) => {
                    let rf = rs[t].fields@[f];
                    assert(variant_resolved(rf, e.fields@, container, f));
                    assert(variant_ok(e.fields@, container, f));
                    if let EnumFieldValue::Struct(sf) = e.fields@[f].value {
                        assert forall|s: int| 0 <= s < rf.inner@.len() implies range_in_bounds(#[trigger] rf.inner@[s]) by {
                            assert(item_ok(sf@, Some(rf.range), s));
                        }
                    }
                },
            }
        }
    }
}

/// The compiler: resolves every declaration, builds the modules, and checks
/// them.
pub struct Analyzer;

impl Analyzer {
    /// Compiles a declaration list into one module per version, or reports
    /// the first error. It succeeds exactly when every declaration is valid
    /// and every computed module passes its checks, and then returns the
    /// timeline of the resolved ranges. Invalid declarations report the
    /// error of the first invalid type; otherwise the first module that fails
    /// its checks reports its first error.
    pub fn run(type_defs: &[Type]) -> (r: Result<Vec<Module>, CompileError>)
        ensures
            r is Ok ==> declarations_ok(type_defs@),
            r matches Ok(modules) ==> {
                &&& modules_ok(type_defs@, modules@)
                &&& exists|rs: Seq<ResolvedType>|
                    is_resolution(rs, type_defs@) && modules@.map_values(|m: Module| m@) == timeline(rs)
            },
            r matches Err(e) ==> !declarations_ok(type_defs@) && e == declarations_error(type_defs@) || is_module_error(e.kind)
                && declarations_ok(type_defs@) && exists|rs: Seq<ResolvedType>, modules: Seq<Module>|
                {
                    &&& is_resolution(rs, type_defs@)
                    &&& modules.map_values(|m: Module| m@) == timeline(rs)
                    &&& !modules_ok(type_defs@, modules)
                    &&& e == modules_error(type_defs@, modules)
                },
    {
        let resolved = resolve_types(type_defs)?;
        proof {
            lemma_resolution_in_bounds(resolved@, type_defs@);
        }
        let modules = build_modules(&resolved);
        match check_modules(type_defs, &modules) {
            Ok(()) => Ok(modules),
            Err(e) => Err(e),
        }
    }
}

} // verus!
