//! The reserved words of Object Pascal.

use vstd::prelude::*;

verus! {

/// `word` is one of the reserved words. The words are matched as they are
/// written: `begin` is reserved, `Begin` is not.
pub open spec fn is_reserved_word(word: Seq<char>) -> bool {
    ||| word == "absolute"@
    ||| word == "abstract"@
    ||| word == "and"@
    ||| word == "array"@
    ||| word == "as"@
    ||| word == "asm"@
    ||| word == "assembler"@
    ||| word == "automated"@
    ||| word == "begin"@
    ||| word == "case"@
    ||| word == "cdecl"@
    ||| word == "class"@
    ||| word == "const"@
    ||| word == "constructor"@
    ||| word == "contains"@
    ||| word == "default"@
    ||| word == "destructor"@
    ||| word == "dispid"@
    ||| word == "dispinterface"@
    ||| word == "div"@
    ||| word == "do"@
    ||| word == "downto"@
    ||| word == "dynamic"@
    ||| word == "else"@
    ||| word == "end"@
    ||| word == "except"@
    ||| word == "export"@
    ||| word == "exports"@
    ||| word == "external"@
    ||| word == "far"@
    ||| word == "file"@
    ||| word == "final"@
    ||| word == "finalization"@
    ||| word == "finally"@
    ||| word == "for"@
    ||| word == "forward"@
    ||| word == "function"@
    ||| word == "goto"@
    ||| word == "if"@
    ||| word == "implementation"@
    ||| word == "implements"@
    ||| word == "in"@
    ||| word == "index"@
    ||| word == "inherited"@
    ||| word == "initialization"@
    ||| word == "inline"@
    ||| word == "interface"@
    ||| word == "is"@
    ||| word == "label"@
    ||| word == "library"@
    ||| word == "message"@
    ||| word == "mod"@
    ||| word == "name"@
    ||| word == "near"@
    ||| word == "nil"@
    ||| word == "not"@
    ||| word == "object"@
    ||| word == "of"@
    ||| word == "on"@
    ||| word == "or"@
    ||| word == "out"@
    ||| word == "overload"@
    ||| word == "override"@
    ||| word == "package"@
    ||| word == "packed"@
    ||| word == "pascal"@
    ||| word == "platform"@
    ||| word == "private"@
    ||| word == "procedure"@
    ||| word == "program"@
    ||| word == "property"@
    ||| word == "protected"@
    ||| word == "public"@
    ||| word == "published"@
    ||| word == "raise"@
    ||| word == "read"@
    ||| word == "record"@
    ||| word == "register"@
    ||| word == "reintroduce"@
    ||| word == "repeat"@
    ||| word == "requires"@
    ||| word == "resident"@
    ||| word == "resourcestring"@
    ||| word == "safecall"@
    ||| word == "set"@
    ||| word == "shl"@
    ||| word == "shr"@
    ||| word == "stdcall"@
    ||| word == "stored"@
    ||| word == "string"@
    ||| word == "then"@
    ||| word == "threadvar"@
    ||| word == "to"@
    ||| word == "try"@
    ||| word == "type"@
    ||| word == "unit"@
    ||| word == "unsafe"@
    ||| word == "until"@
    ||| word == "uses"@
    ||| word == "var"@
    ||| word == "virtual"@
    ||| word == "while"@
    ||| word == "with"@
    ||| word == "write"@
    ||| word == "xor"@
}

/// Whether `word` is a reserved word.
pub fn is_keyword(word: &str) -> (reserved: bool)
    ensures
        reserved == is_reserved_word(word@),
{
    word.eq("absolute")
        || word.eq("abstract")
        || word.eq("and")
        || word.eq("array")
        || word.eq("as")
        || word.eq("asm")
        || word.eq("assembler")
        || word.eq("automated")
        || word.eq("begin")
        || word.eq("case")
        || word.eq("cdecl")
        || word.eq("class")
        || word.eq("const")
        || word.eq("constructor")
        || word.eq("contains")
        || word.eq("default")
        || word.eq("destructor")
        || word.eq("dispid")
        || word.eq("dispinterface")
        || word.eq("div")
        || word.eq("do")
        || word.eq("downto")
        || word.eq("dynamic")
        || word.eq("else")
        || word.eq("end")
        || word.eq("except")
        || word.eq("export")
        || word.eq("exports")
        || word.eq("external")
        || word.eq("far")
        || word.eq("file")
        || word.eq("final")
        || word.eq("finalization")
        || word.eq("finally")
        || word.eq("for")
        || word.eq("forward")
        || word.eq("function")
        || word.eq("goto")
        || word.eq("if")
        || word.eq("implementation")
        || word.eq("implements")
        || word.eq("in")
        || word.eq("index")
        || word.eq("inherited")
        || word.eq("initialization")
        || word.eq("inline")
        || word.eq("interface")
        || word.eq("is")
        || word.eq("label")
        || word.eq("library")
        || word.eq("message")
        || word.eq("mod")
        || word.eq("name")
        || word.eq("near")
        || word.eq("nil")
        || word.eq("not")
        || word.eq("object")
        || word.eq("of")
        || word.eq("on")
        || word.eq("or")
        || word.eq("out")
        || word.eq("overload")
        || word.eq("override")
        || word.eq("package")
        || word.eq("packed")
        || word.eq("pascal")
        || word.eq("platform")
        || word.eq("private")
        || word.eq("procedure")
        || word.eq("program")
        || word.eq("property")
        || word.eq("protected")
        || word.eq("public")
        || word.eq("published")
        || word.eq("raise")
        || word.eq("read")
        || word.eq("record")
        || word.eq("register")
        || word.eq("reintroduce")
        || word.eq("repeat")
        || word.eq("requires")
        || word.eq("resident")
        || word.eq("resourcestring")
        || word.eq("safecall")
        || word.eq("set")
        || word.eq("shl")
        || word.eq("shr")
        || word.eq("stdcall")
        || word.eq("stored")
        || word.eq("string")
        || word.eq("then")
        || word.eq("threadvar")
        || word.eq("to")
        || word.eq("try")
        || word.eq("type")
        || word.eq("unit")
        || word.eq("unsafe")
        || word.eq("until")
        || word.eq("uses")
        || word.eq("var")
        || word.eq("virtual")
        || word.eq("while")
        || word.eq("with")
        || word.eq("write")
        || word.eq("xor")
}

} // verus!
