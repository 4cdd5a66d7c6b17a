//! Visibility and export classification, one rule per language.
//!
//! Providers pass the modifier keywords of a declaration, in source
//! order, and its bare name; the answer is a uniform [`Visibility`]
//! and whether importers can see the symbol.

use vstd::prelude::*;

use crate::chars::{is_uppercase, unicode_uppercase};
use crate::lang::languages::SupportedLanguage;

verus! {

/// Visibility of a member, from most to least open.
#[derive(Debug, Clone, Copy, PartialEq, Eq, Structural)]
pub enum Visibility {
    /// Visible outside the module / assembly / crate.
    Public,
    /// Visible inside the package / module only.
    Package,
    /// Visible inside the enclosing file only.
    File,
    /// Visible inside the enclosing type and its subclasses.
    Protected,
    /// Visible only inside the enclosing type.
    Private,
}

pub open spec fn visibility_name(v: Visibility) -> Seq<char> {
    match v {
        Visibility::Public => "public"@,
        Visibility::Package => "package"@,
        Visibility::File => "file"@,
        Visibility::Protected => "protected"@,
        Visibility::Private => "private"@,
    }
}

impl Visibility {
    /// The lowercase name stored in the graph's `visibility` property.
    pub fn as_str(self) -> (r: &'static str)
        ensures
            r@ == visibility_name(self),
    {
        match self {
            Visibility::Public => "public",
            Visibility::Package => "package",
            Visibility::File => "file",
            Visibility::Protected => "protected",
            Visibility::Private => "private",
        }
    }
}

/// `m` is among the modifiers.
pub open spec fn has_mod(mods: Seq<&str>, m: Seq<char>) -> bool {
    exists|k: int| 0 <= k < mods.len() && (#[trigger] mods[k])@ == m
}

fn has_modifier(mods: &[&str], m: &str) -> (b: bool)
    ensures
        b == has_mod(mods@, m@),
{
    let mc = crate::text::to_chars(m);
    let mut i: usize = 0;
    while i < mods.len()
        invariant
            i <= mods@.len(),
            mc@ == m@,
            forall|k: int| 0 <= k < i ==> (#[trigger] mods@[k])@ != m@,
        decreases mods@.len() - i,
    {
        if crate::text::str_eq_chars(mods[i], mc.as_slice()) {
            return true;
        }
        i += 1;
    }
    false
}

/// The name begins with an uppercase letter.
pub open spec fn starts_upper(name: Seq<char>) -> bool {
    name.len() > 0 && unicode_uppercase(name[0])
}

fn starts_upper_exec(name: &str) -> (b: bool)
    ensures
        b == starts_upper(name@),
{
    let c = crate::text::to_chars(name);
    c.len() > 0 && is_uppercase(c[0])
}

fn starts_with_char(name: &str, ch: char) -> (b: bool)
    ensures
        b == crate::text::starts_with(name@, seq![ch]),
{
    let c = crate::text::to_chars(name);
    proof {
        crate::text::lemma_starts_with_char(name@, ch);
    }
    c.len() > 0 && c[0] == ch
}

pub open spec fn rust_rule(mods: Seq<&str>) -> Visibility {
    if has_mod(mods, "pub(crate)"@) {
        Visibility::Package
    } else if has_mod(mods, "pub(super)"@) {
        Visibility::File
    } else if has_mod(mods, "pub"@) {
        Visibility::Public
    } else {
        Visibility::Private
    }
}

/// One leading underscore is protected, two private; dunder names such
/// as `__init__` are public hooks.
pub open spec fn python_rule(name: Seq<char>) -> Visibility {
    if crate::text::starts_with(name, "__"@) && !crate::text::ends_with(name, "__"@) {
        Visibility::Private
    } else if crate::text::starts_with(name, "__"@) {
        Visibility::Public
    } else if crate::text::starts_with(name, seq!['_']) {
        Visibility::Protected
    } else {
        Visibility::Public
    }
}

pub open spec fn ts_rule(mods: Seq<&str>, name: Seq<char>) -> Visibility {
    if crate::text::starts_with(name, seq!['#']) {
        Visibility::Private
    } else if has_mod(mods, "private"@) {
        Visibility::Private
    } else if has_mod(mods, "protected"@) {
        Visibility::Protected
    } else {
        Visibility::Public
    }
}

/// Java and Kotlin; they differ only in what a bare member is.
pub open spec fn jvm_rule(mods: Seq<&str>, bare: Visibility) -> Visibility {
    if has_mod(mods, "private"@) {
        Visibility::Private
    } else if has_mod(mods, "protected"@) {
        Visibility::Protected
    } else if has_mod(mods, "public"@) {
        Visibility::Public
    } else if has_mod(mods, "internal"@) {
        Visibility::Package
    } else {
        bare
    }
}

pub open spec fn go_rule(name: Seq<char>) -> Visibility {
    if starts_upper(name) {
        Visibility::Public
    } else {
        Visibility::Package
    }
}

/// File-scope `static` is internal linkage.
pub open spec fn c_cpp_rule(mods: Seq<&str>) -> Visibility {
    if has_mod(mods, "private"@) {
        Visibility::Private
    } else if has_mod(mods, "protected"@) {
        Visibility::Protected
    } else if has_mod(mods, "static"@) {
        Visibility::File
    } else {
        Visibility::Public
    }
}

/// PHP and Ruby: public unless marked private or protected.
pub open spec fn php_ruby_rule(mods: Seq<&str>) -> Visibility {
    if has_mod(mods, "private"@) {
        Visibility::Private
    } else if has_mod(mods, "protected"@) {
        Visibility::Protected
    } else {
        Visibility::Public
    }
}

/// Swift's default is `internal`.
pub open spec fn swift_rule(mods: Seq<&str>) -> Visibility {
    if has_mod(mods, "private"@) {
        Visibility::Private
    } else if has_mod(mods, "fileprivate"@) {
        Visibility::File
    } else if has_mod(mods, "internal"@) {
        Visibility::Package
    } else if has_mod(mods, "public"@) || has_mod(mods, "open"@) {
        Visibility::Public
    } else {
        Visibility::Package
    }
}

/// A leading underscore makes a Dart member library-private.
pub open spec fn dart_rule(name: Seq<char>) -> Visibility {
    if crate::text::starts_with(name, seq!['_']) {
        Visibility::File
    } else {
        Visibility::Public
    }
}

pub open spec fn visibility_rule(lang: SupportedLanguage, mods: Seq<&str>, name: Seq<char>) -> Visibility {
    match lang {
        SupportedLanguage::Rust => rust_rule(mods),
        SupportedLanguage::Python => python_rule(name),
        SupportedLanguage::JavaScript | SupportedLanguage::TypeScript => ts_rule(mods, name),
        SupportedLanguage::Java => jvm_rule(mods, Visibility::Package),
        SupportedLanguage::Kotlin => jvm_rule(mods, Visibility::Public),
        SupportedLanguage::CSharp => jvm_rule(mods, Visibility::Package),
        SupportedLanguage::Go => go_rule(name),
        SupportedLanguage::C | SupportedLanguage::Cpp => c_cpp_rule(mods),
        SupportedLanguage::Php | SupportedLanguage::Ruby => php_ruby_rule(mods),
        SupportedLanguage::Swift => swift_rule(mods),
        SupportedLanguage::Dart => dart_rule(name),
        SupportedLanguage::Cobol | SupportedLanguage::Jcl | SupportedLanguage::Html
        | SupportedLanguage::Prisma => Visibility::Public,
    }
}

pub open spec fn exported_rule(
    lang: SupportedLanguage,
    visibility: Visibility,
    mods: Seq<&str>,
    name: Seq<char>,
) -> bool {
    match lang {
        SupportedLanguage::TypeScript | SupportedLanguage::JavaScript => has_mod(mods, "export"@),
        SupportedLanguage::Python | SupportedLanguage::Dart => !crate::text::starts_with(
            name,
            seq!['_'],
        ),
        SupportedLanguage::Go => starts_upper(name),
        SupportedLanguage::Cobol | SupportedLanguage::Jcl | SupportedLanguage::Html
        | SupportedLanguage::Prisma => true,
        _ => visibility == Visibility::Public,
    }
}

fn rust_visibility(mods: &[&str]) -> (v: Visibility)
    ensures
        v == rust_rule(mods@),
{
    if has_modifier(mods, "pub(crate)") {
        Visibility::Package
    } else if has_modifier(mods, "pub(super)") {
        Visibility::File
    } else if has_modifier(mods, "pub") {
        Visibility::Public
    } else {
        Visibility::Private
    }
}

fn python_visibility(name: &str) -> (v: Visibility)
    ensures
        v == python_rule(name@),
{
    let c = crate::text::to_chars(name);
    let dunder_start = crate::text::starts_with_str(c.as_slice(), "__");
    if dunder_start && !crate::text::ends_with_str(c.as_slice(), "__") {
        Visibility::Private
    } else if dunder_start {
        Visibility::Public
    } else if starts_with_char(name, '_') {
        Visibility::Protected
    } else {
        Visibility::Public
    }
}

fn ts_visibility(mods: &[&str], name: &str) -> (v: Visibility)
    ensures
        v == ts_rule(mods@, name@),
{
    if starts_with_char(name, '#') {
        return Visibility::Private;
    }
    if has_modifier(mods, "private") {
        Visibility::Private
    } else if has_modifier(mods, "protected") {
        Visibility::Protected
    } else {
        Visibility::Public
    }
}

fn jvm_visibility(mods: &[&str], default_when_bare: Visibility) -> (v: Visibility)
    ensures
        v == jvm_rule(mods@, default_when_bare),
{
    if has_modifier(mods, "private") {
        Visibility::Private
    } else if has_modifier(mods, "protected") {
        Visibility::Protected
    } else if has_modifier(mods, "public") {
        Visibility::Public
    } else if has_modifier(mods, "internal") {
        Visibility::Package
    } else {
        default_when_bare
    }
}

fn go_visibility(name: &str) -> (v: Visibility)
    ensures
        v == go_rule(name@),
{
    if starts_upper_exec(name) {
        Visibility::Public
    } else {
        Visibility::Package
    }
}

fn c_cpp_visibility(mods: &[&str]) -> (v: Visibility)
    ensures
        v == c_cpp_rule(mods@),
{
    if has_modifier(mods, "private") {
        Visibility::Private
    } else if has_modifier(mods, "protected") {
        Visibility::Protected
    } else if has_modifier(mods, "static") {
        Visibility::File
    } else {
        Visibility::Public
    }
}

fn php_ruby_visibility(mods: &[&str]) -> (v: Visibility)
    ensures
        v == php_ruby_rule(mods@),
{
    if has_modifier(mods, "private") {
        Visibility::Private
    } else if has_modifier(mods, "protected") {
        Visibility::Protected
    } else {
        Visibility::Public
    }
}

fn swift_visibility(mods: &[&str]) -> (v: Visibility)
    ensures
        v == swift_rule(mods@),
{
    if has_modifier(mods, "private") {
        Visibility::Private
    } else if has_modifier(mods, "fileprivate") {
        Visibility::File
    } else if has_modifier(mods, "internal") {
        Visibility::Package
    } else if has_modifier(mods, "public") || has_modifier(mods, "open") {
        Visibility::Public
    } else {
        Visibility::Package
    }
}

fn dart_visibility(name: &str) -> (v: Visibility)
    ensures
        v == dart_rule(name@),
{
    if starts_with_char(name, '_') {
        Visibility::File
    } else {
        Visibility::Public
    }
}

/// Classify a symbol's visibility from its modifier keywords (in source
/// order) and bare name, by the rule of its language.
pub fn classify_visibility(lang: SupportedLanguage, modifiers: &[&str], name: &str) -> (v: Visibility)
    ensures
        v == visibility_rule(lang, modifiers@, name@),
{
    match lang {
        SupportedLanguage::Rust => rust_visibility(modifiers),
        SupportedLanguage::Python => python_visibility(name),
        SupportedLanguage::JavaScript | SupportedLanguage::TypeScript => ts_visibility(modifiers, name),
        SupportedLanguage::Java => jvm_visibility(modifiers, Visibility::Package),
        SupportedLanguage::Kotlin => jvm_visibility(modifiers, Visibility::Public),
        SupportedLanguage::CSharp => jvm_visibility(modifiers, Visibility::Package),
        SupportedLanguage::Go => go_visibility(name),
        SupportedLanguage::C | SupportedLanguage::Cpp => c_cpp_visibility(modifiers),
        SupportedLanguage::Php | SupportedLanguage::Ruby => php_ruby_visibility(modifiers),
        SupportedLanguage::Swift => swift_visibility(modifiers),
        SupportedLanguage::Dart => dart_visibility(name),
        SupportedLanguage::Cobol | SupportedLanguage::Jcl | SupportedLanguage::Html
        | SupportedLanguage::Prisma => Visibility::Public,
    }
}

/// Whether importers can see the symbol. TypeScript and JavaScript go
/// by the `export` keyword, Python and Dart by the leading underscore,
/// Go by the initial's case; the rest follow the visibility.
pub fn is_exported(lang: SupportedLanguage, visibility: Visibility, modifiers: &[&str], name: &str) -> (b:
    bool)
    ensures
        b == exported_rule(lang, visibility, modifiers@, name@),
{
    match lang {
        SupportedLanguage::TypeScript | SupportedLanguage::JavaScript => has_modifier(
            modifiers,
            "export",
        ),
        SupportedLanguage::Python | SupportedLanguage::Dart => !starts_with_char(name, '_'),
        SupportedLanguage::Go => starts_upper_exec(name),
        SupportedLanguage::Cobol | SupportedLanguage::Jcl | SupportedLanguage::Html
        | SupportedLanguage::Prisma => true,
        _ => visibility == Visibility::Public,
    }
}

} // verus!
