//! Rust FFI declarations for a binding package: type aliases, enum constants,
//! `#[repr(C)]` records, and an `extern "C"` block of functions and variables.
use vstd::prelude::*;

use crate::ir::types::{lemma_type_models_index, type_model, type_models, TypeModel};
use crate::ir::{
    BindingItem, BindingPackage, BindingType, EnumBinding, EnumVariant, FieldBinding,
    FunctionBinding, ParameterBinding, RecordBinding, RecordKind, TypeAliasBinding,
    VariableBinding,
};
use crate::text::{dec_str, i128_to_string, int_str, usize_to_string};

verus! {

/// `parts` joined by `sep`.
pub open spec fn join_with(parts: Seq<Seq<char>>, sep: Seq<char>) -> Seq<char>
    decreases parts.len(),
{
    if parts.len() == 0 {
        seq![]
    } else if parts.len() == 1 {
        parts[0]
    } else {
        join_with(parts.drop_last(), sep) + sep + parts.last()
    }
}

/// The Rust spelling of a type: C scalars as `core::ffi` types, pointers as raw
/// pointers, sized arrays as arrays, flexible arrays as pointers, function pointers as
/// `unsafe extern "C" fn`, named types by their names, opaque types as `()`. A
/// qualified type is spelled as the type it qualifies.
pub open spec fn rendered(t: TypeModel) -> Seq<char>
    decreases t,
{
    match t {
        TypeModel::Void => "::core::ffi::c_void"@,
        TypeModel::Bool => "bool"@,
        TypeModel::Char => "::core::ffi::c_char"@,
        TypeModel::SChar => "::core::ffi::c_schar"@,
        TypeModel::UChar => "::core::ffi::c_uchar"@,
        TypeModel::Short => "::core::ffi::c_short"@,
        TypeModel::UShort => "::core::ffi::c_ushort"@,
        TypeModel::Int => "::core::ffi::c_int"@,
        TypeModel::UInt => "::core::ffi::c_uint"@,
        TypeModel::Long => "::core::ffi::c_long"@,
        TypeModel::ULong => "::core::ffi::c_ulong"@,
        TypeModel::LongLong => "::core::ffi::c_longlong"@,
        TypeModel::ULongLong => "::core::ffi::c_ulonglong"@,
        TypeModel::Float => "f32"@,
        TypeModel::Double => "f64"@,
        TypeModel::LongDouble => "[u8; 16]"@,
        TypeModel::Pointer(p, c, _) => {
            let m = if c {
                "*const"@
            } else {
                "*mut"@
            };
            if *p == TypeModel::Void {
                m + " ::core::ffi::c_void"@
            } else {
                m + " "@ + rendered(*p)
            }
        },
        TypeModel::Array(inner, Some(n)) => "["@ + rendered(*inner) + "; "@ + dec_str(n as nat) + "]"@,
        TypeModel::Array(inner, None) => "*mut "@ + rendered(*inner) + " /* flexible array */"@,
        TypeModel::Qualified(inner, _) => rendered(*inner),
        TypeModel::FunctionPointer(ret, ps, variadic) => {
            let list = rendered_list(ps);
            let params = if variadic {
                if list.len() > 0 {
                    list + ", "@ + "..."@
                } else {
                    "..."@
                }
            } else {
                list
            };
            let tail = if *ret == TypeModel::Void {
                seq![]
            } else {
                " -> "@ + rendered(*ret)
            };
            "unsafe extern \"C\" fn("@ + params + ")"@ + tail
        },
        TypeModel::TypedefRef(n) => n,
        TypeModel::RecordRef(n) => n,
        TypeModel::EnumRef(n) => n,
        TypeModel::Opaque(n) => "() /* opaque: "@ + n + " */"@,
    }
}

/// The spellings of a list of types, joined by `", "`.
pub open spec fn rendered_list(ps: Seq<TypeModel>) -> Seq<char>
    decreases ps,
{
    if ps.len() == 0 {
        seq![]
    } else if ps.len() == 1 {
        rendered(ps[0])
    } else {
        rendered_list(ps.subrange(0, ps.len() - 1)) + ", "@ + rendered(ps[ps.len() - 1])
    }
}

/// `pub type NAME = TARGET;`
pub open spec fn alias_decl(a: TypeAliasBinding) -> Seq<char> {
    "pub type "@ + a.name@ + " = "@ + rendered(type_model(a.target)) + ";\n"@
}

/// A constant of an enum's type, or a comment where its value is unknown.
pub open spec fn variant_decl(enum_name: Seq<char>, v: EnumVariant) -> Seq<char> {
    match v.value {
        Some(val) => "pub const "@ + v.name@ + ": "@ + enum_name + " = "@ + int_str(val as int) + ";\n"@,
        None => "// pub const "@ + v.name@ + ": "@ + enum_name + " = <unknown>;\n"@,
    }
}

pub open spec fn variant_decls(enum_name: Seq<char>, vs: Seq<EnumVariant>) -> Seq<char>
    decreases vs.len(),
{
    if vs.len() == 0 {
        seq![]
    } else {
        variant_decls(enum_name, vs.drop_last()) + variant_decl(enum_name, vs.last())
    }
}

/// A named enum: a `c_int` alias and a constant per variant; anonymous enums emit
/// nothing.
pub open spec fn enum_decl(e: EnumBinding) -> Seq<char> {
    match e.name {
        None => seq![],
        Some(n) => "pub type "@ + n@ + " = ::core::ffi::c_int;\n"@ + variant_decls(n@, e.variants@),
    }
}

/// A field's name, or `__bindgen_anon_I` for the unnamed field at index `I`.
pub open spec fn field_name_s(f: FieldBinding, i: int) -> Seq<char> {
    match f.name {
        Some(n) => n@,
        None => "__bindgen_anon_"@ + dec_str(i as nat),
    }
}

pub open spec fn field_decls(fs: Seq<FieldBinding>) -> Seq<char>
    decreases fs.len(),
{
    if fs.len() == 0 {
        seq![]
    } else {
        field_decls(fs.drop_last()) + "    pub "@ + field_name_s(fs.last(), fs.len() - 1) + ": "@ + rendered(
            type_model(fs.last().ty),
        ) + ",\n"@
    }
}

/// A named record: an opaque `#[repr(C)]` struct when its fields are unknown, else a
/// `#[repr(C)]` struct or union with its fields; anonymous records emit nothing.
pub open spec fn record_decl(r: RecordBinding) -> Seq<char> {
    match r.name {
        None => seq![],
        Some(n) => match r.fields {
            None => "#[repr(C)]\npub struct "@ + n@ + " { _opaque: [u8; 0] }\n"@,
            Some(fs) => (match r.kind {
                RecordKind::Struct => "#[repr(C)]\npub struct"@,
                RecordKind::Union => "#[repr(C)]\npub union"@,
            }) + " "@ + n@ + " {\n"@ + field_decls(fs@) + "}\n"@,
        },
    }
}

/// A parameter as `NAME: TYPE`, unnamed ones as `argI`.
pub open spec fn param_decl(p: ParameterBinding, i: int) -> Seq<char> {
    (match p.name {
        Some(n) => n@,
        None => "arg"@ + dec_str(i as nat),
    }) + ": "@ + rendered(type_model(p.ty))
}

pub open spec fn param_decls(ps: Seq<ParameterBinding>) -> Seq<Seq<char>> {
    Seq::new(ps.len(), |i: int| param_decl(ps[i], i))
}

/// `pub fn NAME(PARAMS) -> RET;` inside the extern block, `...` last when variadic and
/// no return type for `void`.
pub open spec fn function_decl(f: FunctionBinding) -> Seq<char> {
    let parts = if f.variadic {
        param_decls(f.parameters@).push("..."@)
    } else {
        param_decls(f.parameters@)
    };
    let ret = if f.return_type is Void {
        seq![]
    } else {
        " -> "@ + rendered(type_model(f.return_type))
    };
    "    pub fn "@ + f.name@ + "("@ + join_with(parts, ", "@) + ")"@ + ret + ";\n"@
}

/// `pub static NAME: TYPE;` inside the extern block.
pub open spec fn variable_decl(v: VariableBinding) -> Seq<char> {
    "    pub static "@ + v.name@ + ": "@ + rendered(type_model(v.ty)) + ";\n"@
}

pub open spec fn aliases_text(items: Seq<BindingItem>) -> Seq<char>
    decreases items.len(),
{
    if items.len() == 0 {
        seq![]
    } else {
        aliases_text(items.drop_last()) + match items.last() {
            BindingItem::TypeAlias(a) => alias_decl(a),
            _ => seq![],
        }
    }
}

pub open spec fn enums_text(items: Seq<BindingItem>) -> Seq<char>
    decreases items.len(),
{
    if items.len() == 0 {
        seq![]
    } else {
        enums_text(items.drop_last()) + match items.last() {
            BindingItem::Enum(e) => enum_decl(e),
            _ => seq![],
        }
    }
}

pub open spec fn records_text(items: Seq<BindingItem>) -> Seq<char>
    decreases items.len(),
{
    if items.len() == 0 {
        seq![]
    } else {
        records_text(items.drop_last()) + match items.last() {
            BindingItem::Record(r) => record_decl(r),
            _ => seq![],
        }
    }
}

pub open spec fn functions_text(items: Seq<BindingItem>) -> Seq<char>
    decreases items.len(),
{
    if items.len() == 0 {
        seq![]
    } else {
        functions_text(items.drop_last()) + match items.last() {
            BindingItem::Function(f) => function_decl(f),
            _ => seq![],
        }
    }
}

pub open spec fn variables_text(items: Seq<BindingItem>) -> Seq<char>
    decreases items.len(),
{
    if items.len() == 0 {
        seq![]
    } else {
        variables_text(items.drop_last()) + match items.last() {
            BindingItem::Variable(v) => variable_decl(v),
            _ => seq![],
        }
    }
}

/// Whether some item is a function or a variable.
pub open spec fn has_extern_items(items: Seq<BindingItem>) -> bool {
    exists|i: int| 0 <= i < items.len() && ((#[trigger] items[i]) is Function || items[i] is Variable)
}

/// The declarations of a package's items: type aliases, then enums, then records, each
/// in item order, then one `extern "C"` block of its functions and variables when
/// there are any. Unsupported items emit nothing.
pub open spec fn emitted(items: Seq<BindingItem>) -> Seq<char> {
    aliases_text(items) + enums_text(items) + records_text(items) + if has_extern_items(items) {
        "extern \"C\" {\n"@ + functions_text(items) + variables_text(items) + "}\n"@
    } else {
        seq![]
    }
}

/// Accumulates the emitted declarations.
pub struct RustEmitter {
    output: String,
}

impl RustEmitter {
    /// The text emitted so far.
    pub closed spec fn text(&self) -> Seq<char> {
        self.output@
    }

    /// An emitter with nothing emitted yet.
    pub fn new() -> (r: Self)
        ensures
            r.text() == Seq::<char>::empty(),
    {
        RustEmitter { output: String::new() }
    }

    fn emit_type_alias(&mut self, alias: &TypeAliasBinding)
        ensures
            final(self).text() == old(self).text() + alias_decl(*alias),
    {
        let target = self.render_type(&alias.target);
        self.output.append("pub type ");
        self.output.append(alias.name.as_str());
        self.output.append(" = ");
        self.output.append(target.as_str());
        self.output.append(";\n");
    }

    fn emit_enum(&mut self, e: &EnumBinding)
        ensures
            final(self).text() == old(self).text() + enum_decl(*e),
    {
        let name = match &e.name {
            Some(n) => n,
            None => {
                assert(old(self).text() + seq![] =~= old(self).text());
                return;
            },
        };
        let ghost start = self.output@;
        self.output.append("pub type ");
        self.output.append(name.as_str());
        self.output.append(" = ::core::ffi::c_int;\n");
        let ghost head = self.output@;
        let mut i: usize = 0;
        assert(e.variants@.subrange(0, 0) =~= seq![]);
        assert(head + variant_decls(name@, e.variants@.subrange(0, 0)) =~= head);
        while i < e.variants.len()
            invariant
                i <= e.variants@.len(),
                self.output@ == head + variant_decls(name@, e.variants@.subrange(0, i as int)),
            decreases e.variants@.len() - i,
        {
            let v = &e.variants[i];
            let ghost before = self.output@;
            match v.value {
                Some(val) => {
                    let text = i128_to_string(val);
                    self.output.append("pub const ");
                    self.output.append(v.name.as_str());
                    self.output.append(": ");
                    self.output.append(name.as_str());
                    self.output.append(" = ");
                    self.output.append(text.as_str());
                    self.output.append(";\n");
                },
                None => {
                    self.output.append("// pub const ");
                    self.output.append(v.name.as_str());
                    self.output.append(": ");
                    self.output.append(name.as_str());
                    self.output.append(" = <unknown>;\n");
                },
            }
            proof {
                let sub = e.variants@.subrange(0, i + 1);
                assert(sub.drop_last() =~= e.variants@.subrange(0, i as int));
                assert(sub.last() == *v);
                assert(self.output@ =~= before + variant_decl(name@, *v));
            }
            i = i + 1;
        }
        assert(e.variants@.subrange(0, i as int) =~= e.variants@);
    }

    fn emit_record(&mut self, r: &RecordBinding)
        ensures
            final(self).text() == old(self).text() + record_decl(*r),
    {
        let name = match &r.name {
            Some(n) => n,
            None => {
                assert(old(self).text() + seq![] =~= old(self).text());
                return;
            },
        };
        let fields = match &r.fields {
            Some(f) => f,
            None => {
                self.output.append("#[repr(C)]\npub struct ");
                self.output.append(name.as_str());
                self.output.append(" { _opaque: [u8; 0] }\n");
                return;
            },
        };
        match r.kind {
            RecordKind::Struct => self.output.append("#[repr(C)]\npub struct"),
            RecordKind::Union => self.output.append("#[repr(C)]\npub union"),
        }
        self.output.append(" ");
        self.output.append(name.as_str());
        self.output.append(" {\n");
        let ghost head = self.output@;
        let mut i: usize = 0;
        assert(fields@.subrange(0, 0) =~= seq![]);
        assert(head + field_decls(fields@.subrange(0, 0)) =~= head);
        while i < fields.len()
            invariant
                i <= fields@.len(),
                self.output@ == head + field_decls(fields@.subrange(0, i as int)),
            decreases fields@.len() - i,
        {
            let f = &fields[i];
            let ghost before = self.output@;
            let ty = self.render_type(&f.ty);
            self.output.append("    pub ");
            match &f.name {
                Some(n) => self.output.append(n.as_str()),
                None => {
                    let index = usize_to_string(i);
                    self.output.append("__bindgen_anon_");
                    self.output.append(index.as_str());
                },
            }
            self.output.append(": ");
            self.output.append(ty.as_str());
            self.output.append(",\n");
            proof {
                let sub = fields@.subrange(0, i + 1);
                assert(sub.drop_last() =~= fields@.subrange(0, i as int));
                assert(sub.last() == *f);
                assert(self.output@ =~= before + "    pub "@ + field_name_s(*f, i as int) + ": "@ + rendered(type_model(f.ty)) + ",\n"@);
            }
            i = i + 1;
        }
        assert(fields@.subrange(0, i as int) =~= fields@);
        self.output.append("}\n");
    }

    fn emit_function(&mut self, f: &FunctionBinding)
        ensures
            final(self).text() == old(self).text() + function_decl(*f),
    {
        let ps = &f.parameters;
        let ghost parts = param_decls(ps@);
        let mut params = String::new();
        let mut i: usize = 0;
        assert(parts.subrange(0, 0) =~= seq![]);
        while i < ps.len()
            invariant
                i <= ps@.len(),
                parts == param_decls(ps@),
                params@ == join_with(parts.subrange(0, i as int), ", "@),
            decreases ps@.len() - i,
        {
            let p = &ps[i];
            let ghost before = params@;
            let ty = self.render_type(&p.ty);
            if i > 0 {
                params.append(", ");
            }
            match &p.name {
                Some(n) => params.append(n.as_str()),
                None => {
                    let index = usize_to_string(i);
                    params.append("arg");
                    params.append(index.as_str());
                },
            }
            params.append(": ");
            params.append(ty.as_str());
            proof {
                let sub = parts.subrange(0, i + 1);
                assert(sub.drop_last() =~= parts.subrange(0, i as int));
                assert(sub.last() == param_decl(*p, i as int));
                if i == 0 {
                    assert(params@ =~= param_decl(*p, i as int));
                } else {
                    assert(params@ =~= before + ", "@ + param_decl(*p, i as int));
                }
            }
            i = i + 1;
        }
        assert(parts.subrange(0, i as int) =~= parts);
        if f.variadic {
            let ghost before = params@;
            if i > 0 {
                params.append(", ");
            }
            params.append("...");
            proof {
                let all = parts.push("..."@);
                assert(all.drop_last() =~= parts);
                if i == 0 {
                    assert(all.len() == 1);
                }
            }
        }
        self.output.append("    pub fn ");
        self.output.append(f.name.as_str());
        self.output.append("(");
        self.output.append(params.as_str());
        self.output.append(")");
        match &f.return_type {
            BindingType::Void => {},
            _ => {
                let ret = self.render_type(&f.return_type);
                self.output.append(" -> ");
                self.output.append(ret.as_str());
            },
        }
        self.output.append(";\n");
    }

    fn emit_variable(&mut self, v: &VariableBinding)
        ensures
            final(self).text() == old(self).text() + variable_decl(*v),
    {
        let ty = self.render_type(&v.ty);
        self.output.append("    pub static ");
        self.output.append(v.name.as_str());
        self.output.append(": ");
        self.output.append(ty.as_str());
        self.output.append(";\n");
    }

    /// The declarations of a package's items, after what was emitted already.
    pub fn emit(self, package: &BindingPackage) -> (r: String)
        ensures
            r@ == self.text() + emitted(package.items@),
    {
        let mut emitter = self;
        let items = &package.items;
        let ghost start = emitter.text();
        let mut i: usize = 0;
        assert(items@.subrange(0, 0) =~= seq![]);
        assert(start + aliases_text(items@.subrange(0, 0)) =~= start);
        while i < items.len()
            invariant
                i <= items@.len(),
                emitter.text() == start + aliases_text(items@.subrange(0, i as int)),
            decreases items@.len() - i,
        {
            let ghost before = emitter.text();
            let ghost sub = items@.subrange(0, i + 1);
            assert(sub.drop_last() =~= items@.subrange(0, i as int));
            assert(sub.last() == items@[i as int]);
            match &items[i] {
                BindingItem::TypeAlias(a) => emitter.emit_type_alias(a),
                _ => {},
            }
            assert(emitter.text() =~= start + aliases_text(sub));
            i = i + 1;
        }
        assert(items@.subrange(0, i as int) =~= items@);
        let ghost s1 = emitter.text();
        let mut i: usize = 0;
        assert(s1 + enums_text(items@.subrange(0, 0)) =~= s1);
        while i < items.len()
            invariant
                i <= items@.len(),
                emitter.text() == s1 + enums_text(items@.subrange(0, i as int)),
            decreases items@.len() - i,
        {
            let ghost sub = items@.subrange(0, i + 1);
            assert(sub.drop_last() =~= items@.subrange(0, i as int));
            assert(sub.last() == items@[i as int]);
            match &items[i] {
                BindingItem::Enum(e) => emitter.emit_enum(e),
                _ => {},
            }
            assert(emitter.text() =~= s1 + enums_text(sub));
            i = i + 1;
        }
        assert(items@.subrange(0, i as int) =~= items@);
        let ghost s2 = emitter.text();
        let mut i: usize = 0;
        assert(s2 + records_text(items@.subrange(0, 0)) =~= s2);
        while i < items.len()
            invariant
                i <= items@.len(),
                emitter.text() == s2 + records_text(items@.subrange(0, i as int)),
            decreases items@.len() - i,
        {
            let ghost sub = items@.subrange(0, i + 1);
            assert(sub.drop_last() =~= items@.subrange(0, i as int));
            assert(sub.last() == items@[i as int]);
            match &items[i] {
                BindingItem::Record(r) => emitter.emit_record(r),
                _ => {},
            }
            assert(emitter.text() =~= s2 + records_text(sub));
            i = i + 1;
        }
        assert(items@.subrange(0, i as int) =~= items@);
        let ghost s3 = emitter.text();
        let mut any = false;
        let mut i: usize = 0;
        while i < items.len()
            invariant
                i <= items@.len(),
                any == exists|k: int| 0 <= k < i && ((#[trigger] items@[k]) is Function || items@[k] is Variable),
            decreases items@.len() - i,
        {
            match &items[i] {
                BindingItem::Function(_) => {
                    any = true;
                },
                BindingItem::Variable(_) => {
                    any = true;
                },
                _ => {},
            }
            i = i + 1;
        }
        if any {
            emitter.output.append("extern \"C\" {\n");
            let ghost s4 = emitter.text();
            let mut i: usize = 0;
            assert(s4 + functions_text(items@.subrange(0, 0)) =~= s4);
            while i < items.len()
                invariant
                    i <= items@.len(),
                    emitter.text() == s4 + functions_text(items@.subrange(0, i as int)),
                decreases items@.len() - i,
            {
                let ghost sub = items@.subrange(0, i + 1);
                assert(sub.drop_last() =~= items@.subrange(0, i as int));
                assert(sub.last() == items@[i as int]);
                match &items[i] {
                    BindingItem::Function(f) => emitter.emit_function(f),
                    _ => {},
                }
                assert(emitter.text() =~= s4 + functions_text(sub));
                i = i + 1;
            }
            assert(items@.subrange(0, i as int) =~= items@);
            let ghost s5 = emitter.text();
            let mut i: usize = 0;
            assert(s5 + variables_text(items@.subrange(0, 0)) =~= s5);
            while i < items.len()
                invariant
                    i <= items@.len(),
                    emitter.text() == s5 + variables_text(items@.subrange(0, i as int)),
                decreases items@.len() - i,
            {
                let ghost sub = items@.subrange(0, i + 1);
                assert(sub.drop_last() =~= items@.subrange(0, i as int));
                assert(sub.last() == items@[i as int]);
                match &items[i] {
                    BindingItem::Variable(v) => emitter.emit_variable(v),
                    _ => {},
                }
                assert(emitter.text() =~= s5 + variables_text(sub));
                i = i + 1;
            }
            assert(items@.subrange(0, i as int) =~= items@);
            emitter.output.append("}\n");
            assert(emitter.text() =~= start + emitted(items@));
        } else {
            assert(emitter.text() =~= start + emitted(items@));
        }
        emitter.output
    }

    /// The Rust spelling of a type.
    pub fn render_type(&self, ty: &BindingType) -> (r: String)
        ensures
            r@ == rendered(type_model(*ty)),
        decreases ty,
    {
        match ty {
            BindingType::Void => "::core::ffi::c_void".to_owned(),
            BindingType::Bool => "bool".to_owned(),
            BindingType::Char => "::core::ffi::c_char".to_owned(),
            BindingType::SChar => "::core::ffi::c_schar".to_owned(),
            BindingType::UChar => "::core::ffi::c_uchar".to_owned(),
            BindingType::Short => "::core::ffi::c_short".to_owned(),
            BindingType::UShort => "::core::ffi::c_ushort".to_owned(),
            BindingType::Int => "::core::ffi::c_int".to_owned(),
            BindingType::UInt => "::core::ffi::c_uint".to_owned(),
            BindingType::Long => "::core::ffi::c_long".to_owned(),
            BindingType::ULong => "::core::ffi::c_ulong".to_owned(),
            BindingType::LongLong => "::core::ffi::c_longlong".to_owned(),
            BindingType::ULongLong => "::core::ffi::c_ulonglong".to_owned(),
            BindingType::Float => "f32".to_owned(),
            BindingType::Double => "f64".to_owned(),
            BindingType::LongDouble => "[u8; 16]".to_owned(),
            BindingType::Pointer { pointee, const_pointee, .. } => {
                proof {
                    lemma_void_model(**pointee);
                }
                let mut out = if *const_pointee {
                    "*const".to_owned()
                } else {
                    "*mut".to_owned()
                };
                match &**pointee {
                    BindingType::Void => {
                        out.append(" ::core::ffi::c_void");
                    },
                    _ => {
                        let inner = self.render_type(pointee);
                        out.append(" ");
                        out.append(inner.as_str());
                    },
                }
                out
            },
            BindingType::Array(inner, Some(size)) => {
                let mut out = "[".to_owned();
                let rendered_inner = self.render_type(inner);
                out.append(rendered_inner.as_str());
                out.append("; ");
                let n = u64_text(*size);
                out.append(n.as_str());
                out.append("]");
                out
            },
            BindingType::Array(inner, None) => {
                let mut out = "*mut ".to_owned();
                let rendered_inner = self.render_type(inner);
                out.append(rendered_inner.as_str());
                out.append(" /* flexible array */");
                out
            },
            BindingType::Qualified { ty: inner, .. } => self.render_type(inner),
            BindingType::FunctionPointer { return_type, parameters, variadic } => {
                proof {
                    lemma_void_model(**return_type);
                }
                let mut params = self.render_list(parameters);
                if *variadic {
                    if !params.as_str().is_empty() {
                        params.append(", ");
                    }
                    params.append("...");
                }
                let mut out = "unsafe extern \"C\" fn(".to_owned();
                out.append(params.as_str());
                out.append(")");
                match &**return_type {
                    BindingType::Void => {},
                    _ => {
                        let ret = self.render_type(return_type);
                        out.append(" -> ");
                        out.append(ret.as_str());
                    },
                }
                out
            },
            BindingType::TypedefRef(name) => name.clone(),
            BindingType::RecordRef(name) => name.clone(),
            BindingType::EnumRef(name) => name.clone(),
            BindingType::Opaque(name) => {
                let mut out = "() /* opaque: ".to_owned();
                out.append(name.as_str());
                out.append(" */");
                out
            },
        }
    }

    /// The spellings of a list of types, joined by `", "`.
    fn render_list(&self, ps: &Vec<BindingType>) -> (r: String)
        ensures
            r@ == rendered_list(type_models(ps@)),
        decreases ps,
    {
        let ghost ms = type_models(ps@);
        proof {
            lemma_type_models_index(ps@);
        }
        let mut out = String::new();
        let mut i: usize = 0;
        assert(ms.subrange(0, 0) =~= seq![]);
        while i < ps.len()
            invariant
                i <= ps@.len(),
                ms == type_models(ps@),
                ms.len() == ps@.len(),
                forall|k: int| 0 <= k < ps@.len() ==> ms[k] == type_model(#[trigger] ps@[k]),
                out@ == rendered_list(ms.subrange(0, i as int)),
            decreases ps@.len() - i,
        {
            assert(decreases_to!(ps => ps@[i as int]));
            let piece = self.render_type(&ps[i]);
            let ghost sub = ms.subrange(0, i + 1);
            proof {
                assert(sub.subrange(0, sub.len() - 1) =~= ms.subrange(0, i as int));
                assert(sub[sub.len() - 1] == type_model(ps@[i as int]));
                if i == 0 {
                    assert(sub.len() == 1);
                    assert(sub[0] == ms[0]);
                }
            }
            if i > 0 {
                out.append(", ");
            }
            out.append(piece.as_str());
            i = i + 1;
        }
        assert(ms.subrange(0, i as int) =~= ms);
        out
    }
}

/// Only `void` is modeled as `void`.
proof fn lemma_void_model(t: BindingType)
    ensures
        (type_model(t) == TypeModel::Void) == (t is Void),
{
    match t {
        BindingType::Void => {},
        _ => {},
    }
}

/// The Rust FFI declarations of a package.
pub fn emit_rust_ffi(package: &BindingPackage) -> (r: String)
    ensures
        r@ == emitted(package.items@),
{
    let emitter = RustEmitter::new();
    let r = emitter.emit(package);
    assert(r@ =~= emitted(package.items@));
    r
}

/// Decimal text of a `u64`.
fn u64_text(n: u64) -> (r: String)
    ensures
        r@ == dec_str(n as nat),
{
    crate::text::u64_to_string(n)
}

} // verus!
