//! Node permissions: the five ZooKeeper rights, how the shell reads them
//! (letters `rwcda` or a number 0-31) and how it prints them (`cdrwa` order).
use vstd::prelude::*;
use crate::text::{
    all_digits, chars_of, decimal_digits, digit_char, digits_value, is_digit, push_char, string_of,
};

verus! {

/// One of the five rights a ZooKeeper ACL grants.
#[derive(Clone, Copy, Debug, PartialEq, Eq, Structural)]
pub enum PermFlag {
    Read,
    Write,
    Create,
    Delete,
    Admin,
}

/// A set of rights. ZooKeeper numbers them READ = 1, WRITE = 2, CREATE = 4,
/// DELETE = 8, ADMIN = 16.
#[derive(Clone, Copy, Debug, PartialEq, Eq, Structural)]
pub struct Permission {
    pub read: bool,
    pub write: bool,
    pub create: bool,
    pub delete: bool,
    pub admin: bool,
}

/// The text of the error for a number that is not a permission.
pub const BAD_PERM_VALUE: &'static str = "无效的 ACL 权限值：";

/// The text before the character of the error for an unknown letter.
pub const BAD_PERM_CHAR: &'static str = "无效的 ACL 权限字符：";

/// The text after the character of the error for an unknown letter.
pub const BAD_PERM_CHAR_TAIL: &'static str = "（仅支持 rwcda）";

impl Permission {
    pub open spec fn spec_none() -> Permission {
        Permission { read: false, write: false, create: false, delete: false, admin: false }
    }

    pub open spec fn spec_has(self, f: PermFlag) -> bool {
        match f {
            PermFlag::Read => self.read,
            PermFlag::Write => self.write,
            PermFlag::Create => self.create,
            PermFlag::Delete => self.delete,
            PermFlag::Admin => self.admin,
        }
    }

    pub open spec fn spec_with(self, f: PermFlag) -> Permission {
        match f {
            PermFlag::Read => Permission { read: true, ..self },
            PermFlag::Write => Permission { write: true, ..self },
            PermFlag::Create => Permission { create: true, ..self },
            PermFlag::Delete => Permission { delete: true, ..self },
            PermFlag::Admin => Permission { admin: true, ..self },
        }
    }

    pub open spec fn spec_union(self, o: Permission) -> Permission {
        Permission {
            read: self.read || o.read,
            write: self.write || o.write,
            create: self.create || o.create,
            delete: self.delete || o.delete,
            admin: self.admin || o.admin,
        }
    }

    /// The permission whose ZooKeeper number is `b`, bits above 16 ignored.
    pub open spec fn from_bits(b: u8) -> Permission {
        Permission {
            read: b & 1 != 0,
            write: b & 2 != 0,
            create: b & 4 != 0,
            delete: b & 8 != 0,
            admin: b & 16 != 0,
        }
    }

    /// The ZooKeeper number of this permission.
    pub open spec fn bits(self) -> u8 {
        ((if self.read { 1u8 } else { 0u8 }) + (if self.write { 2u8 } else { 0u8 }) + (if self.create {
            4u8
        } else {
            0u8
        }) + (if self.delete { 8u8 } else { 0u8 }) + (if self.admin { 16u8 } else { 0u8 })) as u8
    }

    /// No right at all.
    pub fn none() -> (p: Permission)
        ensures
            p == Permission::spec_none(),
    {
        Permission { read: false, write: false, create: false, delete: false, admin: false }
    }

    /// All five rights.
    pub fn all() -> (p: Permission)
        ensures
            p == Permission::from_bits(31),
    {
        let p = Permission { read: true, write: true, create: true, delete: true, admin: true };
        assert(p == Permission::from_bits(31)) by {
            assert(31u8 & 1 != 0 && 31u8 & 2 != 0 && 31u8 & 4 != 0 && 31u8 & 8 != 0 && 31u8 & 16 != 0)
                by (bit_vector);
        }
        p
    }

    /// Just the right `f`.
    pub fn of(f: PermFlag) -> (p: Permission)
        ensures
            p == Permission::spec_none().spec_with(f),
    {
        Permission::none().with(f)
    }

    /// This permission with the right `f` added.
    pub fn with(self, f: PermFlag) -> (p: Permission)
        ensures
            p == self.spec_with(f),
    {
        match f {
            PermFlag::Read => Permission { read: true, ..self },
            PermFlag::Write => Permission { write: true, ..self },
            PermFlag::Create => Permission { create: true, ..self },
            PermFlag::Delete => Permission { delete: true, ..self },
            PermFlag::Admin => Permission { admin: true, ..self },
        }
    }

    /// The rights of both (ZooKeeper's `|`).
    pub fn union(self, o: Permission) -> (p: Permission)
        ensures
            p == self.spec_union(o),
    {
        Permission {
            read: self.read || o.read,
            write: self.write || o.write,
            create: self.create || o.create,
            delete: self.delete || o.delete,
            admin: self.admin || o.admin,
        }
    }

    /// Whether the right `f` is granted (ZooKeeper's `has`).
    pub fn has(self, f: PermFlag) -> (r: bool)
        ensures
            r == self.spec_has(f),
    {
        match f {
            PermFlag::Read => self.read,
            PermFlag::Write => self.write,
            PermFlag::Create => self.create,
            PermFlag::Delete => self.delete,
            PermFlag::Admin => self.admin,
        }
    }
}

/// The right a letter of `rwcda` stands for.
pub open spec fn letter_flag(c: char) -> Option<PermFlag> {
    if c == 'r' {
        Some(PermFlag::Read)
    } else if c == 'w' {
        Some(PermFlag::Write)
    } else if c == 'c' {
        Some(PermFlag::Create)
    } else if c == 'd' {
        Some(PermFlag::Delete)
    } else if c == 'a' {
        Some(PermFlag::Admin)
    } else {
        None
    }
}

/// Reading a string of letters: the rights named, or the error for the
/// first letter that is not one of `rwcda`.
pub open spec fn letters_perm(t: Seq<char>) -> Result<Permission, Seq<char>>
    decreases t.len(),
{
    if t.len() == 0 {
        Ok(Permission::spec_none())
    } else {
        match letters_perm(t.drop_last()) {
            Err(e) => Err(e),
            Ok(p) => match letter_flag(t.last()) {
                Some(f) => Ok(p.spec_with(f)),
                None => Err(BAD_PERM_CHAR@ + seq![t.last()] + BAD_PERM_CHAR_TAIL@),
            },
        }
    }
}

/// What `parse_perms` gives for `t`: a string of ASCII digits (the empty one
/// included) is a number that must lie in 0..=31; anything else is read as letters.
pub open spec fn perms_result(t: Seq<char>) -> Result<Permission, Seq<char>> {
    if all_digits(t) {
        if t.len() > 0 && digits_value(t) <= 31 {
            Ok(Permission::from_bits(digits_value(t) as u8))
        } else {
            Err(BAD_PERM_VALUE@ + t)
        }
    } else {
        letters_perm(t)
    }
}

/// The letters of a permission in zkCli's order `cdrwa`.
pub open spec fn perm_letters(p: Permission) -> Seq<char> {
    (if p.create { seq!['c'] } else { seq![] }) + (if p.delete { seq!['d'] } else { seq![] }) + (if p.read {
        seq!['r']
    } else {
        seq![]
    }) + (if p.write { seq!['w'] } else { seq![] }) + (if p.admin { seq!['a'] } else { seq![] })
}

fn flag_of_letter(c: char) -> (r: Option<PermFlag>)
    ensures
        r == letter_flag(c),
{
    if c == 'r' {
        Some(PermFlag::Read)
    } else if c == 'w' {
        Some(PermFlag::Write)
    } else if c == 'c' {
        Some(PermFlag::Create)
    } else if c == 'd' {
        Some(PermFlag::Delete)
    } else if c == 'a' {
        Some(PermFlag::Admin)
    } else {
        None
    }
}

/// The permission a number 0..=31 stands for.
pub fn perm_from_bits(bits: u8) -> (p: Permission)
    ensures
        p == Permission::from_bits(bits),
{
    Permission {
        read: bits & 1 != 0,
        write: bits & 2 != 0,
        create: bits & 4 != 0,
        delete: bits & 8 != 0,
        admin: bits & 16 != 0,
    }
}

/// Reads permissions from characters; see `perms_result`.
pub fn parse_perm_chars(t: &Vec<char>) -> (r: Result<Permission, String>)
    ensures
        match (r, perms_result(t@)) {
            (Ok(p), Ok(q)) => p == q,
            (Err(e), Err(f)) => e@ == f,
            _ => false,
        },
{
    let mut digits = true;
    let mut i: usize = 0;
    while i < t.len()
        invariant
            i <= t.len(),
            digits == all_digits(t@.take(i as int)),
        decreases t.len() - i,
    {
        if !('0' <= t[i] && t[i] <= '9') {
            digits = false;
        }
        assert(forall|k: int| 0 <= k < i ==> t@.take(i + 1)[k] == t@.take(i as int)[k]);
        assert(t@.take(i + 1)[i as int] == t@[i as int]);
        i += 1;
    }
    assert(t@.take(t.len() as int) == t@);
    if digits {
        // The value, saturated at 32 so that it cannot overflow.
        let mut acc: u32 = 0;
        let mut j: usize = 0;
        while j < t.len()
            invariant
                j <= t.len(),
                all_digits(t@),
                digits_value(t@.take(j as int)) <= 31 ==> acc == digits_value(t@.take(j as int)),
                digits_value(t@.take(j as int)) > 31 ==> acc == 32,
            decreases t.len() - j,
        {
            let d = t[j] as u32 - '0' as u32;
            assert(t@.take(j + 1).drop_last() == t@.take(j as int));
            assert(is_digit(t@[j as int]));
            if acc > 31 {
                acc = 32;
            } else {
                acc = acc * 10 + d;
                if acc > 31 {
                    acc = 32;
                }
            }
            j += 1;
        }
        if t.len() > 0 && acc <= 31 {
            let p = perm_from_bits(acc as u8);
            Ok(p)
        } else {
            let mut e = String::from_str(BAD_PERM_VALUE);
            let text = string_of(t, 0, t.len());
            e.append(text.as_str());
            Err(e)
        }
    } else {
        let mut p = Permission::none();
        let mut k: usize = 0;
        while k < t.len()
            invariant
                k <= t.len(),
                !all_digits(t@),
                letters_perm(t@.take(k as int)) == Ok::<Permission, Seq<char>>(p),
            decreases t.len() - k,
        {
            let c = t[k];
            assert(t@.take(k + 1).drop_last() == t@.take(k as int));
            assert(t@.take(k + 1).last() == c);
            match flag_of_letter(c) {
                Some(f) => {
                    p = p.with(f);
                },
                None => {
                    let mut e = String::from_str(BAD_PERM_CHAR);
                    push_char(&mut e, c);
                    e.append(BAD_PERM_CHAR_TAIL);
                    proof {
                        assert(e@ =~= BAD_PERM_CHAR@ + seq![c] + BAD_PERM_CHAR_TAIL@);
                        assert(letters_perm(t@.take(k + 1)) == Err::<Permission, Seq<char>>(e@));
                        lemma_letters_error_sticks(t@, k as int + 1);
                        assert(!all_digits(t@));
                    }
                    return Err(e);
                },
            }
            k += 1;
        }
        Ok(p)
    }
}

/// Once reading a prefix of letters fails, reading the whole string fails the same way.
proof fn lemma_letters_error_sticks(t: Seq<char>, k: int)
    requires
        0 <= k <= t.len(),
        letters_perm(t.take(k)) is Err,
    ensures
        letters_perm(t) == letters_perm(t.take(k)),
    decreases t.len() - k,
{
    if k < t.len() {
        assert(t.take(k + 1).drop_last() == t.take(k));
        lemma_letters_error_sticks(t, k + 1);
    } else {
        assert(t.take(k) == t);
    }
}

/// Reads a permission the way zkCli does: letters of `rwcda`, or a number 0-31.
pub fn parse_perms(text: &str) -> (r: Result<Permission, String>)
    ensures
        match (r, perms_result(text@)) {
            (Ok(p), Ok(q)) => p == q,
            (Err(e), Err(f)) => e@ == f,
            _ => false,
        },
{
    let t = chars_of(text);
    parse_perm_chars(&t)
}

/// The letters of a permission, in zkCli's order `cdrwa`.
pub fn format_perms(p: Permission) -> (s: String)
    ensures
        s@ == perm_letters(p),
{
    let mut out = String::new();
    if p.has(PermFlag::Create) {
        push_char(&mut out, 'c');
    }
    if p.has(PermFlag::Delete) {
        push_char(&mut out, 'd');
    }
    if p.has(PermFlag::Read) {
        push_char(&mut out, 'r');
    }
    if p.has(PermFlag::Write) {
        push_char(&mut out, 'w');
    }
    if p.has(PermFlag::Admin) {
        push_char(&mut out, 'a');
    }
    assert(out@ =~= perm_letters(p));
    out
}

proof fn lemma_letters_push(s: Seq<char>, c: char)
    ensures
        letters_perm(s.push(c)) == (match letters_perm(s) {
            Err(e) => Err(e),
            Ok(p) => match letter_flag(c) {
                Some(f) => Ok(p.spec_with(f)),
                None => Err(BAD_PERM_CHAR@ + seq![c] + BAD_PERM_CHAR_TAIL@),
            },
        }),
{
    assert(s.push(c).drop_last() == s);
}

/// Reading one optional letter on top of an already-read prefix.
proof fn lemma_letters_step(s: Seq<char>, q: Permission, c: char, f: PermFlag, present: bool)
    requires
        letters_perm(s) == Ok::<Permission, Seq<char>>(q),
        letter_flag(c) == Some(f),
    ensures
        letters_perm(s + (if present { seq![c] } else { seq![] })) == Ok::<Permission, Seq<char>>(
            if present { q.spec_with(f) } else { q },
        ),
{
    if present {
        assert(s + seq![c] == s.push(c));
        lemma_letters_push(s, c);
    } else {
        assert(s + seq![] == s);
    }
}

/// The decimal digits of a number are digits, and they read back as the number.
pub proof fn lemma_decimal_digits_value(n: nat)
    ensures
        all_digits(decimal_digits(n)),
        decimal_digits(n).len() > 0,
        digits_value(decimal_digits(n)) == n,
    decreases n,
{
    if n >= 10 {
        lemma_decimal_digits_value(n / 10);
        let d = decimal_digits(n / 10);
        assert(decimal_digits(n) == d.push(digit_char(n % 10)));
        assert(decimal_digits(n).drop_last() == d);
        assert(decimal_digits(n).last() as nat == 48 + n % 10);
        assert(n == (n / 10) * 10 + n % 10);
        assert('0' as nat == 48);
        assert(digits_value(decimal_digits(n)) == digits_value(d) * 10 + (decimal_digits(n).last() as nat
            - '0' as nat) as nat);
    } else {
        assert('0' as nat == 48);
        assert(decimal_digits(n).last() as nat == 48 + n);
        assert(decimal_digits(n).drop_last().len() == 0);
        assert(digits_value(decimal_digits(n).drop_last()) == 0);
    }
}

/// Printing a permission and reading the letters back gives the same
/// permission, for every permission that grants at least one right (the empty
/// permission prints as the empty string, which reads as a bad number).
pub proof fn law_perm_letters_round_trip(p: Permission)
    requires
        p != Permission::spec_none(),
    ensures
        perms_result(perm_letters(p)) == Ok::<Permission, Seq<char>>(p),
{
    let e: Seq<char> = seq![];
    let s1 = e + (if p.create { seq!['c'] } else { seq![] });
    let s2 = s1 + (if p.delete { seq!['d'] } else { seq![] });
    let s3 = s2 + (if p.read { seq!['r'] } else { seq![] });
    let s4 = s3 + (if p.write { seq!['w'] } else { seq![] });
    let s5 = s4 + (if p.admin { seq!['a'] } else { seq![] });
    let q0 = Permission::spec_none();
    assert(letters_perm(e) == Ok::<Permission, Seq<char>>(q0));
    let q1 = if p.create { q0.spec_with(PermFlag::Create) } else { q0 };
    lemma_letters_step(e, q0, 'c', PermFlag::Create, p.create);
    let q2 = if p.delete { q1.spec_with(PermFlag::Delete) } else { q1 };
    lemma_letters_step(s1, q1, 'd', PermFlag::Delete, p.delete);
    let q3 = if p.read { q2.spec_with(PermFlag::Read) } else { q2 };
    lemma_letters_step(s2, q2, 'r', PermFlag::Read, p.read);
    let q4 = if p.write { q3.spec_with(PermFlag::Write) } else { q3 };
    lemma_letters_step(s3, q3, 'w', PermFlag::Write, p.write);
    let q5 = if p.admin { q4.spec_with(PermFlag::Admin) } else { q4 };
    lemma_letters_step(s4, q4, 'a', PermFlag::Admin, p.admin);
    assert(s5 =~= perm_letters(p));
    assert(q5 == p);
    assert(s5.len() > 0);
    assert(!is_digit(s5[0]));
    assert(!all_digits(s5));
}

/// The two spellings agree: a number 0..=31 reads as the permission with
/// that ZooKeeper number, and so do that permission's letters (when it grants
/// any right).
pub proof fn law_number_and_letters_agree(b: u8)
    requires
        b <= 31,
    ensures
        perms_result(decimal_digits(b as nat)) == Ok::<Permission, Seq<char>>(Permission::from_bits(b)),
        b != 0 ==> perms_result(perm_letters(Permission::from_bits(b))) == Ok::<Permission, Seq<char>>(
            Permission::from_bits(b),
        ),
{
    lemma_decimal_digits_value(b as nat);
    if b != 0 {
        assert(b & 1 != 0 || b & 2 != 0 || b & 4 != 0 || b & 8 != 0 || b & 16 != 0) by (bit_vector)
            requires
                b != 0,
                b <= 31,
        ;
        law_perm_letters_round_trip(Permission::from_bits(b));
    }
}

/// A permission's ZooKeeper number denotes that permission.
pub proof fn law_bits_round_trip(p: Permission)
    ensures
        Permission::from_bits(p.bits()) == p,
{
    let r: u8 = if p.read { 1 } else { 0 };
    let w: u8 = if p.write { 2 } else { 0 };
    let c: u8 = if p.create { 4 } else { 0 };
    let d: u8 = if p.delete { 8 } else { 0 };
    let a: u8 = if p.admin { 16 } else { 0 };
    assert(p.bits() == (r + w + c + d + a) as u8);
    assert({
        let b: u8 = (r + w + c + d + a) as u8;
        &&& (b & 1 != 0) == (r == 1)
        &&& (b & 2 != 0) == (w == 2)
        &&& (b & 4 != 0) == (c == 4)
        &&& (b & 8 != 0) == (d == 8)
        &&& (b & 16 != 0) == (a == 16)
    }) by (bit_vector)
        requires
            r == 0 || r == 1,
            w == 0 || w == 2,
            c == 0 || c == 4,
            d == 0 || d == 8,
            a == 0 || a == 16,
    ;
}

/// Every character names a right.
pub open spec fn all_letters(t: Seq<char>) -> bool {
    forall|i: int| 0 <= i < t.len() ==> letter_flag(#[trigger] t[i]) is Some
}

/// The rights whose letters occur in `t`, in any order and as often as they like.
pub open spec fn letters_union(t: Seq<char>) -> Permission {
    Permission {
        read: t.contains('r'),
        write: t.contains('w'),
        create: t.contains('c'),
        delete: t.contains('d'),
        admin: t.contains('a'),
    }
}

/// `t[i]` is the first character that names no right.
pub open spec fn first_non_letter(t: Seq<char>, i: int) -> bool {
    &&& 0 <= i < t.len()
    &&& letter_flag(t[i]) is None
    &&& forall|j: int| 0 <= j < i ==> letter_flag(#[trigger] t[j]) is Some
}

proof fn lemma_contains_push(p: Seq<char>, x: char, c: char)
    ensures
        p.push(x).contains(c) == (p.contains(c) || x == c),
{
    let t = p.push(x);
    if p.contains(c) {
        let k = choose|k: int| 0 <= k < p.len() && p[k] == c;
        assert(t[k] == c);
    }
    if x == c {
        assert(t[p.len() as int] == c);
    }
    if t.contains(c) {
        let k = choose|k: int| 0 <= k < t.len() && t[k] == c;
        if k < p.len() {
            assert(p[k] == c);
        }
    }
}

proof fn lemma_all_letters_union(t: Seq<char>)
    requires
        all_letters(t),
    ensures
        letters_perm(t) == Ok::<Permission, Seq<char>>(letters_union(t)),
    decreases t.len(),
{
    if t.len() == 0 {
        assert(letters_union(t) == Permission::spec_none());
    } else {
        let p = t.drop_last();
        let x = t.last();
        assert(all_letters(p)) by {
            assert forall|i: int| 0 <= i < p.len() implies letter_flag(#[trigger] p[i]) is Some by {
                assert(p[i] == t[i]);
            }
        }
        lemma_all_letters_union(p);
        assert(letter_flag(t[t.len() - 1]) is Some);
        assert(t == p.push(x));
        lemma_contains_push(p, x, 'r');
        lemma_contains_push(p, x, 'w');
        lemma_contains_push(p, x, 'c');
        lemma_contains_push(p, x, 'd');
        lemma_contains_push(p, x, 'a');
    }
}

/// Reading a text that is not all digits, in closed form: it reads when
/// every character is one of `rwcda`, as the union of the rights they name;
/// otherwise the error names the first other character.
pub proof fn law_letters_closed_form(t: Seq<char>)
    requires
        !all_digits(t),
    ensures
        all_letters(t) ==> perms_result(t) == Ok::<Permission, Seq<char>>(letters_union(t)),
        forall|i: int|
            #[trigger] first_non_letter(t, i) ==> perms_result(t) == Err::<Permission, Seq<char>>(
                BAD_PERM_CHAR@ + seq![t[i]] + BAD_PERM_CHAR_TAIL@,
            ),
{
    if all_letters(t) {
        lemma_all_letters_union(t);
    }
    assert forall|i: int| #[trigger] first_non_letter(t, i) implies perms_result(t) == Err::<
        Permission,
        Seq<char>,
    >(BAD_PERM_CHAR@ + seq![t[i]] + BAD_PERM_CHAR_TAIL@) by {
        let pre = t.take(i);
        assert(all_letters(pre)) by {
            assert forall|j: int| 0 <= j < pre.len() implies letter_flag(#[trigger] pre[j]) is Some by {
                assert(pre[j] == t[j]);
            }
        }
        lemma_all_letters_union(pre);
        assert(t.take(i + 1).drop_last() == pre);
        assert(t.take(i + 1).last() == t[i]);
        lemma_letters_error_sticks(t, i + 1);
    }
}

} // verus!
