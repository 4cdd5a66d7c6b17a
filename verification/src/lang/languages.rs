//! The languages the indexer processes.

use vstd::prelude::*;

verus! {

/// Every language supported by the code graph indexer.
#[derive(Debug, Clone, Copy, PartialEq, Eq, Hash, Structural)]
pub enum SupportedLanguage {
    JavaScript,
    TypeScript,
    Python,
    Java,
    C,
    Cpp,
    CSharp,
    Go,
    Ruby,
    Rust,
    Php,
    Kotlin,
    Swift,
    Dart,
    /// COBOL, read with regular expressions rather than a grammar.
    Cobol,
    /// Mainframe Job Control Language.
    Jcl,
    /// HTML and template dialects.
    Html,
    /// Prisma schema files.
    Prisma,
}

/// Display name of each language.
pub open spec fn language_name(l: SupportedLanguage) -> Seq<char> {
    match l {
        SupportedLanguage::JavaScript => "JavaScript"@,
        SupportedLanguage::TypeScript => "TypeScript"@,
        SupportedLanguage::Python => "Python"@,
        SupportedLanguage::Java => "Java"@,
        SupportedLanguage::C => "C"@,
        SupportedLanguage::Cpp => "C++"@,
        SupportedLanguage::CSharp => "C#"@,
        SupportedLanguage::Go => "Go"@,
        SupportedLanguage::Ruby => "Ruby"@,
        SupportedLanguage::Rust => "Rust"@,
        SupportedLanguage::Php => "PHP"@,
        SupportedLanguage::Kotlin => "Kotlin"@,
        SupportedLanguage::Swift => "Swift"@,
        SupportedLanguage::Dart => "Dart"@,
        SupportedLanguage::Cobol => "COBOL"@,
        SupportedLanguage::Jcl => "JCL"@,
        SupportedLanguage::Html => "HTML"@,
        SupportedLanguage::Prisma => "Prisma"@,
    }
}

impl SupportedLanguage {
    /// Human-readable display name used in UI and logs.
    pub fn as_str(&self) -> (r: &'static str)
        ensures
            r@ == language_name(*self),
    {
        match self {
            SupportedLanguage::JavaScript => "JavaScript",
            SupportedLanguage::TypeScript => "TypeScript",
            SupportedLanguage::Python => "Python",
            SupportedLanguage::Java => "Java",
            SupportedLanguage::C => "C",
            SupportedLanguage::Cpp => "C++",
            SupportedLanguage::CSharp => "C#",
            SupportedLanguage::Go => "Go",
            SupportedLanguage::Ruby => "Ruby",
            SupportedLanguage::Rust => "Rust",
            SupportedLanguage::Php => "PHP",
            SupportedLanguage::Kotlin => "Kotlin",
            SupportedLanguage::Swift => "Swift",
            SupportedLanguage::Dart => "Dart",
            SupportedLanguage::Cobol => "COBOL",
            SupportedLanguage::Jcl => "JCL",
            SupportedLanguage::Html => "HTML",
            SupportedLanguage::Prisma => "Prisma",
        }
    }
}

} // verus!
