//! Fully-qualified names: module-rooted paths of items, instances and
//! monomorphized forms, with a verified textual rendering.
use vstd::prelude::*;
use vstd::string::StringExecFns;

verus! {

/// The mathematical shape of a qualified name: the same tree with every
/// string replaced by its character sequence.
pub ghost enum QualifiedNameView {
    Module(Seq<char>),
    Instance(Box<QualifiedNameView>, u64),
    Item(Box<QualifiedNameView>, Seq<char>),
    Monomorphized(Box<QualifiedNameView>, Seq<char>),
}

/// A fully-qualified name: a module root refined by items, instance
/// numbers and monomorphization arguments.
#[derive(Debug)]
pub enum QualifiedName {
    Module(String),
    Instance(Box<QualifiedName>, u64),
    Item(Box<QualifiedName>, String),
    Monomorphized(Box<QualifiedName>, String),
}

impl Clone for QualifiedName {
    fn clone(&self) -> (r: QualifiedName)
        ensures
            r == *self,
        decreases *self,
    {
        match self {
            QualifiedName::Module(s) => QualifiedName::Module(s.clone()),
            QualifiedName::Instance(p, i) => QualifiedName::Instance(Box::new((**p).clone()), *i),
            QualifiedName::Item(p, s) => QualifiedName::Item(Box::new((**p).clone()), s.clone()),
            QualifiedName::Monomorphized(p, s) => QualifiedName::Monomorphized(
                Box::new((**p).clone()),
                s.clone(),
            ),
        }
    }
}

pub open spec fn qn_view(q: QualifiedName) -> QualifiedNameView
    decreases q,
{
    match q {
        QualifiedName::Module(s) => QualifiedNameView::Module(s@),
        QualifiedName::Instance(p, i) => QualifiedNameView::Instance(Box::new(qn_view(*p)), i),
        QualifiedName::Item(p, s) => QualifiedNameView::Item(Box::new(qn_view(*p)), s@),
        QualifiedName::Monomorphized(p, s) => QualifiedNameView::Monomorphized(
            Box::new(qn_view(*p)),
            s@,
        ),
    }
}

impl View for QualifiedName {
    type V = QualifiedNameView;

    open spec fn view(&self) -> QualifiedNameView {
        qn_view(*self)
    }
}

impl PartialEq for QualifiedName {
    fn eq(&self, other: &QualifiedName) -> (r: bool)
        decreases *self,
    {
        match (self, other) {
            (QualifiedName::Module(a), QualifiedName::Module(b)) => *a == *b,
            (QualifiedName::Instance(p1, i1), QualifiedName::Instance(p2, i2)) => *i1 == *i2
                && **p1 == **p2,
            (QualifiedName::Item(p1, s1), QualifiedName::Item(p2, s2)) => *s1 == *s2 && **p1
                == **p2,
            (QualifiedName::Monomorphized(p1, s1), QualifiedName::Monomorphized(p2, s2)) => *s1
                == *s2 && **p1 == **p2,
            _ => false,
        }
    }
}

impl Eq for QualifiedName {

}

impl vstd::std_specs::cmp::PartialEqSpecImpl for QualifiedName {
    open spec fn obeys_eq_spec() -> bool {
        true
    }

    open spec fn eq_spec(&self, other: &QualifiedName) -> bool {
        self@ == other@
    }
}

impl QualifiedName {
    /// Refine this name with one more item component.
    pub fn add(&self, item: String) -> (r: QualifiedName)
        ensures
            r@ == QualifiedNameView::Item(Box::new(self@), item@),
    {
        QualifiedName::Item(Box::new(self.clone()), item)
    }

    /// The module root this name descends from.
    pub open spec fn module_spec(self) -> QualifiedNameView
        decreases self,
    {
        match self {
            QualifiedName::Module(_) => self@,
            QualifiedName::Instance(p, _) => p.module_spec(),
            QualifiedName::Item(p, _) => p.module_spec(),
            QualifiedName::Monomorphized(p, _) => p.module_spec(),
        }
    }

    pub fn module(&self) -> (r: QualifiedName)
        ensures
            r@ == self.module_spec(),
        decreases *self,
    {
        match self {
            QualifiedName::Module(_) => self.clone(),
            QualifiedName::Instance(p, _) => p.module(),
            QualifiedName::Item(p, _) => p.module(),
            QualifiedName::Monomorphized(p, _) => p.module(),
        }
    }

    /// The name one component up: a module is its own base.
    pub open spec fn base_spec(self) -> QualifiedNameView {
        match self {
            QualifiedName::Module(_) => self@,
            QualifiedName::Instance(p, _) => p@,
            QualifiedName::Item(p, _) => p@,
            QualifiedName::Monomorphized(p, _) => p@,
        }
    }

    pub fn base(&self) -> (r: QualifiedName)
        ensures
            r@ == self.base_spec(),
    {
        match self {
            QualifiedName::Module(_) => self.clone(),
            QualifiedName::Instance(p, _) => (**p).clone(),
            QualifiedName::Item(p, _) => (**p).clone(),
            QualifiedName::Monomorphized(p, _) => (**p).clone(),
        }
    }

    /// Wrap this name as a monomorphized form with the given argument text.
    pub fn monomorphized(&self, args: String) -> (r: QualifiedName)
        ensures
            r@ == QualifiedNameView::Monomorphized(Box::new(self@), args@),
    {
        QualifiedName::Monomorphized(Box::new(self.clone()), args)
    }
}

/// An item `name` directly under module `m`.
pub fn build(m: &str, name: &str) -> (r: QualifiedName)
    ensures
        r@ == QualifiedNameView::Item(
            Box::new(QualifiedNameView::Module(m@)),
            name@,
        ),
{
    let root = QualifiedName::Module(String::from_str(m));
    assert(root@ == QualifiedNameView::Module(m@));
    QualifiedName::Item(Box::new(root), String::from_str(name))
}

/// The decimal digit `d` as a character.
pub open spec fn digit_char(d: nat) -> char {
    if d == 0 {
        '0'
    } else if d == 1 {
        '1'
    } else if d == 2 {
        '2'
    } else if d == 3 {
        '3'
    } else if d == 4 {
        '4'
    } else if d == 5 {
        '5'
    } else if d == 6 {
        '6'
    } else if d == 7 {
        '7'
    } else if d == 8 {
        '8'
    } else {
        '9'
    }
}

/// The decimal rendering of `n`, most significant digit first.
pub open spec fn dec_digits(n: nat) -> Seq<char>
    decreases n,
{
    if n < 10 {
        seq![digit_char(n)]
    } else {
        dec_digits(n / 10).push(digit_char(n % 10))
    }
}

fn digit_str(d: u64) -> (r: &'static str)
    requires
        d < 10,
    ensures
        r@ == seq![digit_char(d as nat)],
{
    proof {
        reveal_strlit("0");
        reveal_strlit("1");
        reveal_strlit("2");
        reveal_strlit("3");
        reveal_strlit("4");
        reveal_strlit("5");
        reveal_strlit("6");
        reveal_strlit("7");
        reveal_strlit("8");
        reveal_strlit("9");
    }
    match d {
        0 => "0",
        1 => "1",
        2 => "2",
        3 => "3",
        4 => "4",
        5 => "5",
        6 => "6",
        7 => "7",
        8 => "8",
        _ => "9",
    }
}

/// Render `n` in decimal.
pub fn u64ToString(n: u64) -> (r: String)
    ensures
        r@ == dec_digits(n as nat),
    decreases n,
{
    if n < 10 {
        String::from_str(digit_str(n))
    } else {
        let prefix = u64ToString(n / 10);
        let r = prefix.concat(digit_str(n % 10));
        proof {
            assert(r@ == dec_digits((n / 10) as nat).push(digit_char((n % 10) as nat)));
        }
        r
    }
}

/// The textual rendering of a qualified name: components joined by `.`,
/// instance numbers by `/`, monomorphization arguments by `#` (omitted
/// when the argument text is empty).
pub open spec fn render(q: QualifiedNameView) -> Seq<char>
    decreases q,
{
    match q {
        QualifiedNameView::Module(s) => s,
        QualifiedNameView::Instance(p, i) => render(*p) + seq!['/'] + dec_digits(i as nat),
        QualifiedNameView::Item(p, s) => render(*p) + seq!['.'] + s,
        QualifiedNameView::Monomorphized(p, args) => if args.len() == 0 {
            render(*p)
        } else {
            render(*p) + seq!['#'] + args
        },
    }
}

impl QualifiedName {
    pub fn toString(&self) -> (r: String)
        ensures
            r@ == render(self@),
        decreases *self,
    {
        match self {
            QualifiedName::Module(s) => s.clone(),
            QualifiedName::Instance(p, i) => {
                proof {
                    reveal_strlit("/");
                }
                p.toString().concat("/").concat(u64ToString(*i).as_str())
            },
            QualifiedName::Item(p, s) => {
                proof {
                    reveal_strlit(".");
                }
                p.toString().concat(".").concat(s.as_str())
            },
            QualifiedName::Monomorphized(p, args) => {
                proof {
                    reveal_strlit("#");
                }
                if args.as_str().is_empty() {
                    p.toString()
                } else {
                    p.toString().concat("#").concat(args.as_str())
                }
            },
        }
    }
}

/// An item name `Module.name` with module and item given as sequences,
/// the shape every name-table entry below takes.
pub open spec fn item_name(m: Seq<char>, n: Seq<char>) -> QualifiedNameView {
    QualifiedNameView::Item(Box::new(QualifiedNameView::Module(m)), n)
}

pub fn getBoolTypeName() -> (r: QualifiedName)
    ensures
        r@ == item_name("Bool"@, "Bool"@),
{
    build("Bool", "Bool")
}

pub fn getIntTypeName() -> (r: QualifiedName)
    ensures
        r@ == item_name("Int"@, "Int"@),
{
    build("Int", "Int")
}

pub fn getU8TypeName() -> (r: QualifiedName)
    ensures
        r@ == item_name("Int"@, "U8"@),
{
    build("Int", "U8")
}

pub fn getStringTypeName() -> (r: QualifiedName)
    ensures
        r@ == item_name("String"@, "String"@),
{
    build("String", "String")
}

pub fn getCharTypeName() -> (r: QualifiedName)
    ensures
        r@ == item_name("Char"@, "Char"@),
{
    build("Char", "Char")
}

pub fn getTrueName() -> (r: QualifiedName)
    ensures
        r@ == QualifiedNameView::Item(Box::new(item_name("Bool"@, "Bool"@)), "True"@),
{
    build("Bool", "Bool").add(String::from_str("True"))
}

pub fn getFalseName() -> (r: QualifiedName)
    ensures
        r@ == QualifiedNameView::Item(Box::new(item_name("Bool"@, "Bool"@)), "False"@),
{
    build("Bool", "Bool").add(String::from_str("False"))
}

pub fn getStringEqName() -> (r: QualifiedName)
    ensures
        r@ == QualifiedNameView::Item(Box::new(item_name("String"@, "String"@)), "eq"@),
{
    build("String", "String").add(String::from_str("eq"))
}

pub fn getPtrNullName() -> (r: QualifiedName)
    ensures
        r@ == item_name("Ptr"@, "null"@),
{
    build("Ptr", "null")
}

pub fn getPtrAllocateArrayName() -> (r: QualifiedName)
    ensures
        r@ == item_name("Ptr"@, "allocateArray"@),
{
    build("Ptr", "allocateArray")
}

pub fn getPtrDeallocateName() -> (r: QualifiedName)
    ensures
        r@ == item_name("Ptr"@, "deallocate"@),
{
    build("Ptr", "deallocate")
}

pub fn getPtrMemcpyName() -> (r: QualifiedName)
    ensures
        r@ == item_name("Ptr"@, "memcpy"@),
{
    build("Ptr", "memcpy")
}

pub fn getPtrOffsetName() -> (r: QualifiedName)
    ensures
        r@ == item_name("Ptr"@, "offset"@),
{
    build("Ptr", "offset")
}

pub fn getPtrStoreName() -> (r: QualifiedName)
    ensures
        r@ == item_name("Ptr"@, "store"@),
{
    build("Ptr", "store")
}

pub fn getPtrToRefName() -> (r: QualifiedName)
    ensures
        r@ == item_name("Ptr"@, "toRef"@),
{
    build("Ptr", "toRef")
}

pub fn getPtrPrintName() -> (r: QualifiedName)
    ensures
        r@ == item_name("Ptr"@, "print"@),
{
    build("Ptr", "print")
}

pub fn getPtrCloneName() -> (r: QualifiedName)
    ensures
        r@ == item_name("Ptr"@, "clone"@),
{
    build("Ptr", "clone")
}

pub fn getPtrLoadName() -> (r: QualifiedName)
    ensures
        r@ == item_name("Ptr"@, "load"@),
{
    build("Ptr", "load")
}

pub fn getCloneName() -> (r: QualifiedName)
    ensures
        r@ == QualifiedNameView::Item(Box::new(item_name("Std.Ops"@, "Clone"@)), "clone"@),
{
    build("Std.Ops", "Clone").add(String::from_str("clone"))
}

pub fn getIntAddName() -> (r: QualifiedName)
    ensures
        r@ == QualifiedNameView::Item(Box::new(item_name("Int"@, "Int"@)), "add"@),
{
    build("Int", "Int").add(String::from_str("add"))
}

pub fn getIntSubName() -> (r: QualifiedName)
    ensures
        r@ == QualifiedNameView::Item(Box::new(item_name("Int"@, "Int"@)), "sub"@),
{
    build("Int", "Int").add(String::from_str("sub"))
}

pub fn getIntMulName() -> (r: QualifiedName)
    ensures
        r@ == QualifiedNameView::Item(Box::new(item_name("Int"@, "Int"@)), "mul"@),
{
    build("Int", "Int").add(String::from_str("mul"))
}

pub fn getIntDivName() -> (r: QualifiedName)
    ensures
        r@ == QualifiedNameView::Item(Box::new(item_name("Int"@, "Int"@)), "div"@),
{
    build("Int", "Int").add(String::from_str("div"))
}

pub fn getIntEqName() -> (r: QualifiedName)
    ensures
        r@ == QualifiedNameView::Item(Box::new(item_name("Int"@, "Int"@)), "eq"@),
{
    build("Int", "Int").add(String::from_str("eq"))
}

pub fn getIntLessThanName() -> (r: QualifiedName)
    ensures
        r@ == QualifiedNameView::Item(Box::new(item_name("Int"@, "Int"@)), "lessThan"@),
{
    build("Int", "Int").add(String::from_str("lessThan"))
}

pub fn getIntCloneName() -> (r: QualifiedName)
    ensures
        r@ == QualifiedNameView::Item(Box::new(item_name("Int"@, "Int"@)), "clone"@),
{
    build("Int", "Int").add(String::from_str("clone"))
}

pub fn getU8AddName() -> (r: QualifiedName)
    ensures
        r@ == QualifiedNameView::Item(Box::new(item_name("Int"@, "U8"@)), "add"@),
{
    build("Int", "U8").add(String::from_str("add"))
}

pub fn getU8SubName() -> (r: QualifiedName)
    ensures
        r@ == QualifiedNameView::Item(Box::new(item_name("Int"@, "U8"@)), "sub"@),
{
    build("Int", "U8").add(String::from_str("sub"))
}

pub fn getU8MulName() -> (r: QualifiedName)
    ensures
        r@ == QualifiedNameView::Item(Box::new(item_name("Int"@, "U8"@)), "mul"@),
{
    build("Int", "U8").add(String::from_str("mul"))
}

pub fn getU8DivName() -> (r: QualifiedName)
    ensures
        r@ == QualifiedNameView::Item(Box::new(item_name("Int"@, "U8"@)), "div"@),
{
    build("Int", "U8").add(String::from_str("div"))
}

pub fn getU8EqName() -> (r: QualifiedName)
    ensures
        r@ == QualifiedNameView::Item(Box::new(item_name("Int"@, "U8"@)), "eq"@),
{
    build("Int", "U8").add(String::from_str("eq"))
}

pub fn getU8LessThanName() -> (r: QualifiedName)
    ensures
        r@ == QualifiedNameView::Item(Box::new(item_name("Int"@, "U8"@)), "lessThan"@),
{
    build("Int", "U8").add(String::from_str("lessThan"))
}

pub fn getU8CloneName() -> (r: QualifiedName)
    ensures
        r@ == QualifiedNameView::Item(Box::new(item_name("Int"@, "U8"@)), "clone"@),
{
    build("Int", "U8").add(String::from_str("clone"))
}

pub fn getDropFnName() -> (r: QualifiedName)
    ensures
        r@ == QualifiedNameView::Item(Box::new(item_name("Std.Ops"@, "Drop"@)), "drop"@),
{
    build("Std.Ops", "Drop").add(String::from_str("drop"))
}

pub fn getDropName() -> (r: QualifiedName)
    ensures
        r@ == item_name("Std.Ops"@, "Drop"@),
{
    build("Std.Ops", "Drop")
}

pub fn getCopyName() -> (r: QualifiedName)
    ensures
        r@ == item_name("Std.Ops"@, "Copy"@),
{
    build("Std.Ops", "Copy")
}

pub fn getAutoDropFnName() -> (r: QualifiedName)
    ensures
        r@ == item_name("siko"@, "autoDrop"@),
{
    build("siko", "autoDrop")
}

pub fn getVecNewName() -> (r: QualifiedName)
    ensures
        r@ == QualifiedNameView::Item(Box::new(item_name("Vec"@, "Vec"@)), "new"@),
{
    build("Vec", "Vec").add(String::from_str("new"))
}

pub fn getVecPushName() -> (r: QualifiedName)
    ensures
        r@ == QualifiedNameView::Item(Box::new(item_name("Vec"@, "Vec"@)), "push"@),
{
    build("Vec", "Vec").add(String::from_str("push"))
}

pub fn getStdBasicUtilAbortName() -> (r: QualifiedName)
    ensures
        r@ == item_name("Std.Basic.Util"@, "abort"@),
{
    build("Std.Basic.Util", "abort")
}

} // verus!
