//! Layout descriptors: how a type looks and is named in a foreign
//! declaration.

use crate::headers::text::{decimal, decimal_string};
use crate::headers::Language;
use vstd::prelude::*;
use vstd::string::*;

verus! {

/// A type that the target languages already know.
pub struct Primitive {
    /// Its spelling in C (and in the Python headers, which hold C
    /// declarations).
    pub c_name: String,
    /// Its spelling in C#.
    pub csharp_name: String,
    /// The `UnmanagedType` that C# must marshal it as, if it needs one.
    pub csharp_marshaler: Option<String>,
}

/// A named member of a [`Composite`].
pub struct Field {
    pub name: String,
    pub ty: TypeLayout,
}

/// A struct-like type that the header has to define itself.
pub struct Composite {
    /// The name of the type, which is also its identity: two composites with
    /// the same name are the same type.
    pub name: String,
    /// Documentation, one entry per line.
    pub docs: Vec<String>,
    /// The members, in declaration order.
    pub fields: Vec<Field>,
}

/// The foreign layout of a type.
pub enum TypeLayout {
    Primitive(Primitive),
    /// A pointer to `pointee`, through which the pointee cannot be changed
    /// if `is_const` holds.
    Pointer { pointee: Box<TypeLayout>, is_const: bool },
    /// `len` items laid out one after the other.
    FixedArray { item: Box<TypeLayout>, len: usize },
    Composite(Composite),
}

impl Primitive {
    /// The spelling of the type in `lang`.
    pub open spec fn spelling(&self, lang: Language) -> Seq<char> {
        match lang {
            Language::CSharp => self.csharp_name@,
            _ => self.c_name@,
        }
    }
}

impl Composite {
    /// How the type is referred to in `lang`.
    pub open spec fn spelling(&self, lang: Language) -> Seq<char> {
        match lang {
            Language::CSharp => self.name@,
            _ => "struct "@ + self.name@,
        }
    }
}

/// What stands between a pointee and the name of a pointer to it.
pub open spec fn pointer_sigil(lang: Language, is_const: bool) -> Seq<char> {
    if is_const && lang != Language::CSharp {
        "const * "@
    } else {
        "* "@
    }
}

impl TypeLayout {
    /// The declaration, in `lang`, of a variable `var` of this type.
    ///
    /// Pointer stars and array brackets wrap the variable's name, from the
    /// outermost layer of the type inwards, and the spelling of the innermost
    /// type comes first: `char const * s`, `int32_t * rows[4]`. A pointer to
    /// an array keeps its star in parentheses.
    pub open spec fn wrapping(&self, lang: Language, var: Seq<char>) -> Seq<char>
        decreases self,
    {
        match self {
            TypeLayout::Primitive(p) => p.spelling(lang) + " "@ + var,
            TypeLayout::Pointer { pointee, is_const } => {
                let starred = pointer_sigil(lang, *is_const) + var;
                if **pointee is FixedArray {
                    pointee.wrapping(lang, "("@ + starred + ")"@)
                } else {
                    pointee.wrapping(lang, starred)
                }
            },
            TypeLayout::FixedArray { item, len } => {
                let indexed = item.wrapping(lang, var + "["@ + decimal(*len as nat) + "]"@);
                if lang == Language::CSharp {
                    "fixed "@ + indexed
                } else {
                    indexed
                }
            },
            TypeLayout::Composite(c) => c.spelling(lang) + " "@ + var,
        }
    }

    /// The marshaling directive that C# needs for a value of this type.
    pub open spec fn marshaler(&self) -> Option<Seq<char>> {
        match self {
            TypeLayout::Primitive(p) => match p.csharp_marshaler {
                Some(m) => Some(m@),
                None => None,
            },
            _ => None,
        }
    }

    /// Renders the declaration of a variable named `var_name`.
    pub fn name_wrapping_var(&self, lang: Language, var_name: &str) -> (out: String)
        ensures
            out@ == self.wrapping(lang, var_name@),
        decreases self,
    {
        match self {
            TypeLayout::Primitive(p) => {
                let mut out = match lang {
                    Language::CSharp => p.csharp_name.clone(),
                    _ => p.c_name.clone(),
                };
                out.append(" ");
                out.append(var_name);
                out
            },
            TypeLayout::Pointer { pointee, is_const } => {
                let mut starred = String::new();
                if *is_const && lang != Language::CSharp {
                    starred.append("const * ");
                } else {
                    starred.append("* ");
                }
                starred.append(var_name);
                proof {
                    assert(starred@ =~= pointer_sigil(lang, *is_const) + var_name@);
                }
                match **pointee {
                    TypeLayout::FixedArray { .. } => {
                        let mut grouped = String::from_str("(");
                        grouped.append(starred.as_str());
                        grouped.append(")");
                        pointee.name_wrapping_var(lang, grouped.as_str())
                    },
                    _ => pointee.name_wrapping_var(lang, starred.as_str()),
                }
            },
            TypeLayout::FixedArray { item, len } => {
                let mut indexed = String::from_str(var_name);
                indexed.append("[");
                indexed.append(decimal_string(*len).as_str());
                indexed.append("]");
                let inner = item.name_wrapping_var(lang, indexed.as_str());
                if lang == Language::CSharp {
                    String::from_str("fixed ").concat(inner.as_str())
                } else {
                    inner
                }
            },
            TypeLayout::Composite(c) => {
                let mut out = String::new();
                match lang {
                    Language::CSharp => {},
                    _ => {
                        out.append("struct ");
                    },
                }
                out.append(c.name.as_str());
                out.append(" ");
                out.append(var_name);
                proof {
                    assert(out@ =~= c.spelling(lang) + " "@ + var_name@);
                }
                out
            },
        }
    }

    /// The marshaling directive that C# needs for a value of this type, if
    /// any. No other language uses it.
    pub fn csharp_marshaler(&self) -> (out: Option<String>)
        ensures
            out is Some == self.marshaler() is Some,
            out matches Some(m) ==> self.marshaler() == Some(m@),
    {
        match self {
            TypeLayout::Primitive(p) => match &p.csharp_marshaler {
                Some(m) => Some(m.clone()),
                None => None,
            },
            _ => None,
        }
    }
}

} // verus!
