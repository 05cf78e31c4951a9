//! What each target language looks like: documentation comments and the
//! definitions of composite types.

use crate::headers::definer::Definer;
use crate::headers::layout::{Composite, Field};
use crate::headers::Language;
use vstd::prelude::*;
use vstd::string::*;

verus! {

impl Language {
    /// The line that opens a documentation comment.
    pub open spec fn doc_open(self) -> Seq<char> {
        match self {
            Language::CSharp => "/// <summary>\n"@,
            _ => "/** \\brief\n"@,
        }
    }

    /// What precedes each line of documentation.
    pub open spec fn doc_lead(self) -> Seq<char> {
        match self {
            Language::CSharp => "/// "@,
            _ => " * "@,
        }
    }

    /// The line that closes a documentation comment.
    pub open spec fn doc_close(self) -> Seq<char> {
        match self {
            Language::CSharp => "/// </summary>\n"@,
            _ => " */\n"@,
        }
    }

    /// The first `upto` lines of `docs`, each behind its lead and ended by a
    /// line feed.
    pub open spec fn doc_lines(self, docs: Seq<String>, upto: int) -> Seq<char>
        decreases upto,
    {
        if upto <= 0 || upto > docs.len() {
            Seq::empty()
        } else {
            self.doc_lines(docs, upto - 1) + self.doc_lead() + docs[upto - 1]@ + "\n"@
        }
    }

    /// The documentation comment that holds `docs`; nothing at all where
    /// there is no documentation.
    pub open spec fn docs_text(self, docs: Seq<String>) -> Seq<char> {
        if docs.len() == 0 {
            Seq::empty()
        } else {
            self.doc_open() + self.doc_lines(docs, docs.len() as int) + self.doc_close()
        }
    }

    /// What opens the definition of a composite type, up to its name.
    pub open spec fn struct_open(self) -> Seq<char> {
        match self {
            Language::CSharp => "[StructLayout(LayoutKind.Sequential)]\npublic unsafe struct "@,
            _ => "struct "@,
        }
    }

    /// What precedes each member of a composite type.
    pub open spec fn member_lead(self) -> Seq<char> {
        match self {
            Language::CSharp => "    public "@,
            _ => "    "@,
        }
    }

    /// What closes the definition of a composite type.
    pub open spec fn struct_close(self) -> Seq<char> {
        match self {
            Language::CSharp => "}\n\n"@,
            _ => "};\n\n"@,
        }
    }

    /// The declarations of the first `upto` of `fields`, one per line.
    pub open spec fn members_text(self, fields: Seq<Field>, upto: int) -> Seq<char>
        decreases upto,
    {
        if upto <= 0 || upto > fields.len() {
            Seq::empty()
        } else {
            self.members_text(fields, upto - 1) + self.member_lead() + fields[upto - 1].ty.wrapping(
                self,
                fields[upto - 1].name@,
            ) + ";\n"@
        }
    }

    /// The full definition of `composite`: its documentation, its name and
    /// its members in declaration order, followed by an empty line.
    pub open spec fn struct_text(self, composite: Composite) -> Seq<char> {
        self.docs_text(composite.docs@) + self.struct_open() + composite.name@ + " {\n"@
            + self.members_text(composite.fields@, composite.fields@.len() as int)
            + self.struct_close()
    }

    /// Renders `docs` as a documentation comment.
    pub fn render_docs(self, docs: &Vec<String>) -> (out: String)
        ensures
            out@ == self.docs_text(docs@),
    {
        let mut out = String::new();
        if docs.len() == 0 {
            return out;
        }
        match self {
            Language::CSharp => out.append("/// <summary>\n"),
            _ => out.append("/** \\brief\n"),
        }
        let mut i: usize = 0;
        while i < docs.len()
            invariant
                i <= docs.len(),
                out@ == self.doc_open() + self.doc_lines(docs@, i as int),
            decreases docs.len() - i,
        {
            let ghost before = out@;
            match self {
                Language::CSharp => out.append("/// "),
                _ => out.append(" * "),
            }
            out.append(docs[i].as_str());
            out.append("\n");
            proof {
                assert(out@ == before + self.doc_lead() + docs@[i as int]@ + "\n"@);
                assert(out@ =~= self.doc_open() + (self.doc_lines(docs@, i as int) + self.doc_lead()
                    + docs@[i as int]@ + "\n"@));
            }
            i += 1;
        }
        match self {
            Language::CSharp => out.append("/// </summary>\n"),
            _ => out.append(" */\n"),
        }
        out
    }

    /// Renders the definition of `composite`.
    pub fn render_struct(self, composite: &Composite) -> (out: String)
        ensures
            out@ == self.struct_text(*composite),
    {
        let mut out = self.render_docs(&composite.docs);
        match self {
            Language::CSharp => out.append(
                "[StructLayout(LayoutKind.Sequential)]\npublic unsafe struct ",
            ),
            _ => out.append("struct "),
        }
        out.append(composite.name.as_str());
        out.append(" {\n");
        let ghost head = out@;
        let mut i: usize = 0;
        while i < composite.fields.len()
            invariant
                i <= composite.fields.len(),
                out@ == head + self.members_text(composite.fields@, i as int),
            decreases composite.fields.len() - i,
        {
            let ghost before = out@;
            let field = &composite.fields[i];
            match self {
                Language::CSharp => out.append("    public "),
                _ => out.append("    "),
            }
            out.append(field.ty.name_wrapping_var(self, field.name.as_str()).as_str());
            out.append(";\n");
            proof {
                let decl = field.ty.wrapping(self, field.name@);
                assert(out@ == before + self.member_lead() + decl + ";\n"@);
                assert(out@ =~= head + (self.members_text(composite.fields@, i as int)
                    + self.member_lead() + decl + ";\n"@));
            }
            i += 1;
        }
        match self {
            Language::CSharp => out.append("}\n\n"),
            _ => out.append("};\n\n"),
        }
        out
    }

    /// Writes the definition of `composite` to the sink of `definer`.
    pub fn emit_struct<D: Definer>(self, definer: &mut D, composite: &Composite)
        ensures
            final(definer).written() == old(definer).written() + self.struct_text(*composite),
            final(definer).defined() == old(definer).defined(),
    {
        let text = self.render_struct(composite);
        let sink = definer.out();
        sink.append(text.as_str());
    }
}

} // verus!
