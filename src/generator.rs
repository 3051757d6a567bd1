//! Emits the tables and the scanner bindings for one escape set as source text.
use vstd::prelude::*;
use vstd::string::*;
use vstd::utf8::decode_utf8;
use crate::buffer::{Buffer, TextState, st_raw, st_write, st_writeln};
use crate::pair::{Pair, bytes_of, strictly_sorted};
use crate::ranges::{compact, encode, encoding};
use crate::table::{classifies, classify_table, quotes, quotes_valid};

verus! {

pub open spec fn digit(d: int) -> char {
    seq!['0', '1', '2', '3', '4', '5', '6', '7', '8', '9'][d]
}

/// The decimal digits of `n`.
pub open spec fn dec(n: nat) -> Seq<char>
    decreases n,
{
    if n < 10 {
        seq![digit(n as int)]
    } else {
        dec(n / 10).push(digit((n % 10) as int))
    }
}

/// Relies on `ToString` for `usize` (its `Display`): the decimal digits,
/// with no sign and no leading zero.
#[verifier::external_body]
fn decimal(n: usize) -> (r: String)
    ensures
        r@ == dec(n as nat),
{
    n.to_string()
}

/// The text that the alternate `Debug` format gives for a list of strings.
pub uninterp spec fn pretty_list_of(items: Seq<Seq<char>>) -> Seq<char>;

/// Relies on the alternate `Debug` format (`{:#?}`) of `Vec<String>`: a
/// function of the strings alone.
#[verifier::external_body]
fn pretty_list(items: &Vec<String>) -> (r: String)
    ensures
        r@ == pretty_list_of(items@.map_values(|t: String| t@)),
{
    format!("{:#?}", items)
}

/// The table entry of byte `b`: the position of its pair, or `s.len()`.
pub open spec fn table_entry(s: Seq<u8>, b: int) -> int {
    if exists|i: int| 0 <= i < s.len() && s[i] == b as u8 {
        choose|i: int| 0 <= i < s.len() && s[i] == b as u8
    } else {
        s.len() as int
    }
}

proof fn lemma_table_entry(s: Seq<u8>, b: int, t: int)
    requires
        strictly_sorted(s),
        classifies(s, b as u8, t),
    ensures
        t == table_entry(s, b),
{
    if exists|i: int| 0 <= i < s.len() && s[i] == b as u8 {
        let i = choose|i: int| 0 <= i < s.len() && s[i] == b as u8;
        if t != i {
            if t < i {
                assert(s[t] < s[i]);
            } else if t < s.len() {
                assert(s[i] < s[t]);
            }
        }
    }
}

/// The first `n` entries of the byte table, each followed by `, `.
pub open spec fn entries(st: TextState, s: Seq<u8>, n: nat) -> TextState
    decreases n,
{
    if n == 0 {
        st
    } else {
        st_write(entries(st, s, (n - 1) as nat), dec(table_entry(s, n - 1) as nat) + ", "@)
    }
}

/// Each value of `items` in decimal, followed by `, `.
pub open spec fn tt(items: Seq<u8>) -> Seq<char>
    decreases items.len(),
{
    if items.len() == 0 {
        seq![]
    } else {
        tt(items.drop_last()) + dec(items.last() as nat) + ", "@
    }
}

pub open spec fn bool_text(b: bool) -> Seq<char> {
    if b { "true"@ } else { "false"@ }
}

/// `s` filled up with zeros to sixteen bytes.
pub open spec fn padded16(s: Seq<u8>) -> Seq<u8> {
    s + Seq::new((16 - s.len()) as nat, |i: int| 0u8)
}

/// The replacement texts of `pairs`, decoded.
pub open spec fn quote_texts(pairs: Seq<Pair>) -> Seq<Seq<char>> {
    pairs.map_values(|p: Pair| decode_utf8(p.quote@))
}

pub open spec fn cfg_line() -> Seq<char> {
    "#[cfg(all(target_arch = \"x86_64\", not(v_escape_nosimd)))]"@
}

pub open spec fn scalar_text() -> Seq<char> {
    "mod scalar { use super :: * ; _v_escape_escape_scalar ! (V_ESCAPE_TABLE , V_ESCAPE_QUOTES , V_ESCAPE_QUOTES_LEN) ; }"@
}

/// The code generator for one escape set and one choice of scanner kernels.
pub struct Generator<'a> {
    pub pairs: &'a [Pair],
    pub simd: bool,
    pub ranges: bool,
    pub avx: bool,
}

/// The source text generated for `pairs` with the given kernel choices.
pub fn generate(pairs: &[Pair], simd: bool, ranges: bool, avx: bool) -> (r: String)
    requires
        (Generator { pairs, simd, ranges, avx }).valid(),
    ensures
        r@ == (Generator { pairs, simd, ranges, avx }).output(),
{
    Generator::new(pairs, simd, ranges, avx).build()
}

impl<'a> Generator<'a> {
    pub open spec fn bytes(&self) -> Seq<u8> {
        bytes_of(self.pairs@)
    }

    /// The escape set is one that the generator can emit code for.
    pub open spec fn valid(&self) -> bool {
        &&& strictly_sorted(self.bytes())
        &&& quotes_valid(self.pairs@)
        &&& (self.simd && !self.ranges ==> self.pairs@.len() <= 16)
        &&& (self.simd && self.ranges ==> self.pairs@.len() >= 1)
    }

    pub open spec fn spec_static_table(&self, st: TextState) -> TextState {
        let len = dec(self.pairs@.len());
        let a = st_write(st, "static V_ESCAPE_TABLE: [u8; 256] = ["@);
        let b = entries(a, self.bytes(), 256);
        let c = st_writeln(b, "];"@);
        let d = st_writeln(
            c,
            "static V_ESCAPE_QUOTES: [&str; "@ + len + "] = "@ + pretty_list_of(
                quote_texts(self.pairs@),
            ) + ";"@,
        );
        st_writeln(d, "const V_ESCAPE_QUOTES_LEN: usize = "@ + len + ";"@)
    }

    pub open spec fn spec_scalar(&self, st: TextState) -> TextState {
        st_writeln(st, scalar_text())
    }

    pub open spec fn spec_eq(&self, st: TextState) -> TextState {
        let a = st_writeln(st, cfg_line());
        let b = st_writeln(a, "mod sse {"@);
        let c = st_writeln(b, "use super::*;"@);
        let d = st_write(c, " _v_escape_escape_sse!((V_ESCAPE_TABLE, V_ESCAPE_QUOTES, V_ESCAPE_QUOTES_LEN) "@);
        let e = st_raw(d, tt(padded16(self.bytes())));
        let f = st_writeln(e, ");"@);
        st_writeln(f, "}"@)
    }

    pub open spec fn spec_kernel(&self, st: TextState, name: Seq<char>) -> TextState {
        let a = st_write(st, "pub mod "@);
        let b = st_write(a, name);
        let c = st_writeln(b, " {"@);
        let d = st_writeln(c, "use super::super::*;"@);
        let e = st_write(d, "_v_escape_escape_ranges!("@);
        let f = st_write(e, name);
        let g = st_write(f, "2 (V_ESCAPE_TABLE, V_ESCAPE_QUOTES, V_ESCAPE_QUOTES_LEN) "@);
        let h = st_raw(g, tt(encoding(self.bytes())));
        let i = st_writeln(h, ");"@);
        st_writeln(i, "}"@)
    }

    pub open spec fn spec_ranges(&self, st: TextState) -> TextState {
        let a = st_writeln(st, cfg_line());
        let b = st_writeln(a, "mod ranges {"@);
        let c = if self.avx {
            self.spec_kernel(self.spec_kernel(b, "avx"@), "sse"@)
        } else {
            self.spec_kernel(b, "sse"@)
        };
        st_writeln(c, "}"@)
    }

    pub open spec fn spec_functions(&self, st: TextState) -> TextState {
        let a = self.spec_scalar(st);
        if self.simd {
            if self.ranges {
                self.spec_ranges(a)
            } else {
                self.spec_eq(a)
            }
        } else {
            a
        }
    }

    pub open spec fn spec_cfg_if(&self, st: TextState) -> TextState {
        st_writeln(
            st,
            "_v_escape_cfg_escape!("@ + bool_text(self.simd) + ", "@ + bool_text(self.ranges) + ", "@
                + bool_text(self.avx) + ");"@,
        )
    }

    /// The whole generated source text.
    pub open spec fn output(&self) -> Seq<char> {
        let st = TextState { text: seq![], indent: 0, start: true };
        self.spec_cfg_if(self.spec_functions(self.spec_static_table(st))).text
    }

    pub fn new(pairs: &'a [Pair], simd: bool, ranges: bool, avx: bool) -> (r: Generator<'a>)
        ensures
            r.pairs@ == pairs@,
            r.simd == simd,
            r.ranges == ranges,
            r.avx == avx,
    {
        Generator { pairs, simd, ranges, avx }
    }

    /// The compact comparison-group encoding of the escape bytes.
    pub fn calculate_ranges(&self) -> (r: Vec<u8>)
        requires
            self.pairs@.len() >= 1,
            strictly_sorted(self.bytes()),
        ensures
            r@ == encoding(self.bytes()),
    {
        let g = compact(self.pairs);
        encode(g.as_slice())
    }

    /// The generated source: the byte and replacement tables, the scalar
    /// scanner, the selected vectorized scanner, and the binding that picks one.
    pub fn build(&self) -> (r: String)
        requires
            self.valid(),
        ensures
            r@ == self.output(),
    {
        let mut buf = Buffer::new(0);
        self.write_static_table(&mut buf);
        self.write_functions(&mut buf);
        self.write_cfg_if(&mut buf);
        buf.buf
    }

    fn write_static_table(&self, buf: &mut Buffer)
        requires
            old(buf).indent < 60,
            strictly_sorted(self.bytes()),
            quotes_valid(self.pairs@),
        ensures
            final(buf)@ == self.spec_static_table(old(buf)@),
            final(buf).indent == old(buf).indent,
    {
        let len = self.pairs.len();
        buf.write("static V_ESCAPE_TABLE: [u8; 256] = [");
        let ghost a = buf@;
        let table = classify_table(self.pairs);
        let mut b: usize = 0;
        while b < 256
            invariant
                b <= 256,
                table@.len() == 256,
                forall|x: int|
                    0 <= x < 256 ==> classifies(self.bytes(), x as u8, #[trigger] table@[x] as int),
                strictly_sorted(self.bytes()),
                buf@ == entries(a, self.bytes(), b as nat),
                buf.indent == old(buf).indent,
                old(buf).indent < 60,
            decreases 256 - b,
        {
            proof {
                lemma_table_entry(self.bytes(), b as int, table@[b as int] as int);
            }
            let mut e = decimal(table[b]);
            e.append(", ");
            buf.write(e.as_str());
            b = b + 1;
        }
        proof {
            reveal_strlit("];");
            reveal_strlit("static V_ESCAPE_QUOTES: [&str; ");
            reveal_strlit("const V_ESCAPE_QUOTES_LEN: usize = ");
            reveal_strlit(";");
        }
        buf.writeln("];");
        assert(buf.indent == old(buf).indent);
        let q = quotes(self.pairs).unwrap();
        assert(q@.map_values(|t: String| t@) =~= quote_texts(self.pairs@));
        let n = decimal(len);
        let mut line = String::from_str("static V_ESCAPE_QUOTES: [&str; ");
        line.append(n.as_str());
        line.append("] = ");
        line.append(pretty_list(&q).as_str());
        line.append(";");
        assert(line@.len() > 1 && line@.last() == ';');
        buf.writeln(line.as_str());
        assert(buf.indent == old(buf).indent);
        let mut last = String::from_str("const V_ESCAPE_QUOTES_LEN: usize = ");
        last.append(n.as_str());
        last.append(";");
        assert(last@.len() > 1 && last@.last() == ';');
        buf.writeln(last.as_str());
    }

    fn write_scalar(&self, buf: &mut Buffer)
        requires
            old(buf).indent < 60,
        ensures
            final(buf)@ == self.spec_scalar(old(buf)@),
            final(buf).indent == old(buf).indent,
    {
        proof {
            reveal_strlit("mod scalar { use super :: * ; _v_escape_escape_scalar ! (V_ESCAPE_TABLE , V_ESCAPE_QUOTES , V_ESCAPE_QUOTES_LEN) ; }");
        }
        buf.writeln("mod scalar { use super :: * ; _v_escape_escape_scalar ! (V_ESCAPE_TABLE , V_ESCAPE_QUOTES , V_ESCAPE_QUOTES_LEN) ; }");
    }

    fn write_cfg_if(&self, buf: &mut Buffer)
        requires
            old(buf).indent < 60,
        ensures
            final(buf)@ == self.spec_cfg_if(old(buf)@),
            final(buf).indent == old(buf).indent,
    {
        let mut line = String::from_str("_v_escape_cfg_escape!(");
        line.append(if self.simd { "true" } else { "false" });
        line.append(", ");
        line.append(if self.ranges { "true" } else { "false" });
        line.append(", ");
        line.append(if self.avx { "true" } else { "false" });
        line.append(");");
        proof {
            reveal_strlit("_v_escape_cfg_escape!(");
            reveal_strlit(");");
            assert(line@.len() > 2);
            assert(line@.last() == ')' || line@.last() == ';');
        }
        buf.writeln(line.as_str());
    }

    fn write_eq(&self, buf: &mut Buffer)
        requires
            old(buf).indent < 60,
            self.pairs@.len() <= 16,
        ensures
            final(buf)@ == self.spec_eq(old(buf)@),
            final(buf).indent == old(buf).indent,
    {
        proof {
            reveal_strlit("#[cfg(all(target_arch = \"x86_64\", not(v_escape_nosimd)))]");
            reveal_strlit("mod sse {");
            reveal_strlit("use super::*;");
            reveal_strlit(");");
            reveal_strlit("}");
        }
        buf.writeln("#[cfg(all(target_arch = \"x86_64\", not(v_escape_nosimd)))]");
        assert(buf.indent == old(buf).indent);
        buf.writeln("mod sse {");
        assert(buf.indent == old(buf).indent + 1);
        buf.writeln("use super::*;");
        assert(buf.indent == old(buf).indent + 1);
        let mut chars: Vec<u8> = Vec::new();
        let mut i: usize = 0;
        while i < self.pairs.len()
            invariant
                i <= self.pairs@.len(),
                chars@ == self.bytes().take(i as int),
            decreases self.pairs@.len() - i,
        {
            chars.push(self.pairs[i].ch);
            assert(chars@ =~= self.bytes().take(i + 1));
            i = i + 1;
        }
        while chars.len() < 16
            invariant
                chars@.len() <= 16,
                self.bytes().len() <= 16,
                chars@.len() >= self.bytes().len(),
                chars@ == self.bytes() + Seq::new((chars@.len() - self.bytes().len()) as nat, |i: int| 0u8),
            decreases 16 - chars@.len(),
        {
            chars.push(0);
            assert(chars@ =~= self.bytes() + Seq::new((chars@.len() - self.bytes().len()) as nat, |i: int| 0u8));
        }
        assert(chars@ =~= padded16(self.bytes()));
        buf.write(" _v_escape_escape_sse!((V_ESCAPE_TABLE, V_ESCAPE_QUOTES, V_ESCAPE_QUOTES_LEN) ");
        self.write_macro_tt(buf, chars.as_slice());
        buf.writeln(");");
        assert(buf.indent == old(buf).indent + 1);
        buf.writeln("}");
    }

    fn write_kernel(&self, buf: &mut Buffer, name: &str, ranges: &[u8])
        requires
            old(buf).indent < 59,
            ranges@ == encoding(self.bytes()),
        ensures
            final(buf)@ == self.spec_kernel(old(buf)@, name@),
            final(buf).indent == old(buf).indent,
    {
        proof {
            reveal_strlit(" {");
            reveal_strlit("use super::super::*;");
            reveal_strlit(");");
            reveal_strlit("}");
        }
        buf.write("pub mod ");
        buf.write(name);
        buf.writeln(" {");
        assert(buf.indent == old(buf).indent + 1);
        buf.writeln("use super::super::*;");
        assert(buf.indent == old(buf).indent + 1);
        buf.write("_v_escape_escape_ranges!(");
        buf.write(name);
        buf.write("2 (V_ESCAPE_TABLE, V_ESCAPE_QUOTES, V_ESCAPE_QUOTES_LEN) ");
        self.write_macro_tt(buf, ranges);
        buf.writeln(");");
        assert(buf.indent == old(buf).indent + 1);
        buf.writeln("}");
    }

    fn write_ranges(&self, buf: &mut Buffer)
        requires
            old(buf).indent < 58,
            self.pairs@.len() >= 1,
            strictly_sorted(self.bytes()),
        ensures
            final(buf)@ == self.spec_ranges(old(buf)@),
            final(buf).indent == old(buf).indent,
    {
        proof {
            reveal_strlit("#[cfg(all(target_arch = \"x86_64\", not(v_escape_nosimd)))]");
            reveal_strlit("mod ranges {");
            reveal_strlit("}");
        }
        buf.writeln("#[cfg(all(target_arch = \"x86_64\", not(v_escape_nosimd)))]");
        assert(buf.indent == old(buf).indent);
        buf.writeln("mod ranges {");
        assert(buf.indent == old(buf).indent + 1);
        let ranges = self.calculate_ranges();
        if self.avx {
            self.write_kernel(buf, "avx", ranges.as_slice());
        }
        self.write_kernel(buf, "sse", ranges.as_slice());
        buf.writeln("}");
    }

    fn write_functions(&self, buf: &mut Buffer)
        requires
            old(buf).indent < 58,
            self.valid(),
        ensures
            final(buf)@ == self.spec_functions(old(buf)@),
            final(buf).indent == old(buf).indent,
    {
        self.write_scalar(buf);
        if self.simd {
            if self.ranges {
                self.write_ranges(buf);
            } else {
                self.write_eq(buf);
            }
        }
    }

    fn write_macro_tt(&self, buf: &mut Buffer, items: &[u8])
        ensures
            final(buf)@ == st_raw(old(buf)@, tt(items@)),
    {
        let mut i: usize = 0;
        while i < items.len()
            invariant
                i <= items@.len(),
                buf@ == st_raw(old(buf)@, tt(items@.take(i as int))),
            decreases items@.len() - i,
        {
            let ghost before = buf.buf@;
            let d = decimal(items[i] as usize);
            buf.buf.append(d.as_str());
            buf.buf.append(", ");
            assert(items@.take(i + 1).drop_last() =~= items@.take(i as int));
            assert(buf.buf@ =~= old(buf)@.text + tt(items@.take(i + 1)));
            i = i + 1;
        }
        assert(items@.take(items@.len() as int) =~= items@);
    }
}

} // verus!
