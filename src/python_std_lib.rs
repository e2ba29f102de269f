//! Which top-level module names need no declared package.
use vstd::prelude::*;

use crate::text::{contains_str, is_substring};

verus! {

/// The top-level modules of the Python standard library, with the build
/// tooling that every environment carries, each followed by a space.
pub const STD_LIB_MODULES: &'static str = " \
    __future__ _abc _aix_support _ast _asyncio _bisect _blake2 _bootsubprocess _bz2 _codecs \
    _collections _collections_abc _compat_pickle _compression _contextvars _crypt _csv \
    _ctypes _curses _curses_panel _datetime _dbm _decimal _distutils_hack _elementtree \
    _frozen_importlib _frozen_importlib_external _functools _gdbm _hashlib _heapq _imp _io \
    _json _locale _lsprof _lzma _markupbase _md5 _msi _multibytecodec _multiprocessing \
    _opcode _operator _osx_support _overlapped _pickle _posixshmem _posixsubprocess _py_abc \
    _pydecimal _pyio _queue _random _sha1 _sha256 _sha3 _sha512 _signal _sitebuiltins \
    _socket _sqlite3 _sre _ssl _stat _statistics _string _strptime _struct _symtable \
    _thread _threading_local _tkinter _tokenize _tracemalloc _typing _uuid _warnings \
    _weakref _weakrefset _winapi _zoneinfo abc aifc antigravity argparse array ast asynchat \
    asyncio asyncore atexit audioop base64 bdb binascii binhex bisect builtins bz2 cProfile \
    calendar cgi cgitb chunk cmath cmd code codecs codeop collections colorsys compileall \
    concurrent configparser contextlib contextvars copy copyreg crypt csv ctypes curses \
    dataclasses datetime dbm decimal difflib dis distutils doctest email encodings \
    ensurepip enum errno faulthandler fcntl filecmp fileinput fnmatch fractions ftplib \
    functools gc genericpath getopt getpass gettext glob graphlib grp gzip hashlib heapq \
    hmac html http idlelib imaplib imghdr imp importlib inspect io ipaddress itertools json \
    keyword lib2to3 linecache locale logging lzma mailbox mailcap marshal math mimetypes \
    mmap modulefinder msilib msvcrt multiprocessing netrc nis nntplib nt ntpath nturl2path \
    numbers opcode operator optparse os ossaudiodev pathlib pdb pickle pickletools pip \
    pipes pkg_resources pkgutil platform plistlib poplib posix posixpath pprint profile \
    pstats pty pwd py_compile pyclbr pydoc pydoc_data pyexpat queue quopri random re \
    readline reprlib resource rlcompleter runpy sched secrets select selectors setuptools \
    shelve shlex shutil signal site smtpd smtplib sndhdr socket socketserver spwd sqlite3 \
    sre_compile sre_constants sre_parse ssl stat statistics string stringprep struct \
    subprocess sunau symtable sys sysconfig syslog tabnanny tarfile telnetlib tempfile \
    termios textwrap this threading time timeit tkinter token tokenize tomllib trace \
    traceback tracemalloc tty turtle turtledemo types typing unicodedata \
    unittest urllib uu uuid venv warnings wave weakref webbrowser wheel winreg winsound \
    wsgiref xdrlib xml xmlrpc zipapp zipfile zipimport zlib zoneinfo ";

/// `name` is one of the modules that need no declared package: it is a word
/// of the table.
pub open spec fn is_std_lib_name(name: Seq<char>) -> bool {
    &&& name.len() > 0
    &&& !name.contains(' ')
    &&& is_substring(seq![' '] + name + seq![' '], STD_LIB_MODULES@)
}

/// Whether `name` belongs to the standard library or to the always present
/// build tooling.
pub fn is_std_lib_module(name: &str) -> (r: bool)
    ensures
        r == is_std_lib_name(name@),
{
    proof {
        reveal_strlit(" ");
    }
    if name.unicode_len() == 0 || contains_str(name, " ") {
        assert(name@.len() > 0 ==> (name@.contains(' ') <==> is_substring(" "@, name@))) by {
            if name@.contains(' ') {
                let i = choose|i: int| 0 <= i < name@.len() && name@[i] == ' ';
                assert(name@.subrange(i, i + 1) =~= " "@);
            }
            if is_substring(" "@, name@) {
                let i = choose|i: int| crate::text::occurs_at(name@, " "@, i);
                assert(name@.subrange(i, i + 1)[0] == name@[i]);
            }
        }
        return false;
    }
    assert(!name@.contains(' ')) by {
        if name@.contains(' ') {
            let i = choose|i: int| 0 <= i < name@.len() && name@[i] == ' ';
            assert(name@.subrange(i, i + 1) =~= " "@);
            assert(crate::text::occurs_at(name@, " "@, i));
        }
    }
    let mut word = String::from_str(" ");
    word.append(name);
    word.append(" ");
    assert(word@ =~= seq![' '] + name@ + seq![' ']);
    contains_str(STD_LIB_MODULES, word.as_str())
}

} // verus!
