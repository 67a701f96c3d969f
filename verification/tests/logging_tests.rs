use ogedit::content::{
    escape_bytes, format_content, format_content_bytes, format_hex_with_offset, format_with_line_numbers,
};
use ogedit::goto::Point;
use ogedit::logging::{
    escape_text, log_action, log_app_exit, log_app_start, log_content_snapshot, log_copy, log_cursor_move,
    log_cut, log_delete, log_dialog_close, log_dialog_open, log_duplicate_line, log_encoding_change,
    log_error, log_file_close, log_file_new, log_file_open, log_file_save, log_goto, log_menu_checkbox,
    log_menu_click, log_menu_open, log_mouse_click, log_mouse_drag, log_paste, log_redo, log_replace,
    log_search, log_select_all, log_selection, log_selection_clear, log_text_input, log_undo,
    log_word_wrap_toggle,
};

#[test]
fn escape_text_special_characters() {
    assert_eq!(escape_text("a\nb\r\tc\\d\"e\u{1}f\u{7f}"), "a\\nb\\tc\\\\d\\\"e\\x01f\\x7f");
    assert_eq!(escape_text("plain é ✓"), "plain é ✓");
    assert_eq!(escape_text(""), "");
    assert_eq!(escape_text("a\u{85}b"), "a\\x85b");
}

#[test]
fn escape_bytes_valid_and_invalid_utf8() {
    assert_eq!(escape_bytes(b"ok\r\n"), "ok\\n");
    assert_eq!(escape_bytes(b"Hi there\xff\r\x00"), "Hi there\\xff\\x00");
    assert_eq!(escape_bytes(&[0xc3, 0xa9, 0xff, b'~', b' ']), "\\xc3\\xa9\\xff~ ");
}

#[test]
fn format_content_short_is_quoted() {
    assert_eq!(format_content("tab\there \"q\" \u{1}\r\n"), "\"tab\\there \\\"q\\\" \\x01\\n\"");
    assert_eq!(format_content(""), "\"\"");
}

#[test]
fn format_content_threshold() {
    assert_eq!(format_content(&"a".repeat(255)), "\"aaaaaaaaaaaaaaaaaaaaaaaaaaaaaaaaaaaaaaaaaaaaaaaaaaaaaaaaaaaaaaaaaaaaaaaaaaaaaaaaaaaaaaaaaaaaaaaaaaaaaaaaaaaaaaaaaaaaaaaaaaaaaaaaaaaaaaaaaaaaaaaaaaaaaaaaaaaaaaaaaaaaaaaaaaaaaaaaaaaaaaaaaaaaaaaaaaaaaaaaaaaaaaaaaaaaaaaaaaaaaaaaaaaaaaaaaaaaaaaaaaaaaaaaaaaaaaa\"");
    let long = "a".repeat(256);
    assert_eq!(format_content(&long), "[CONTENT: 256 bytes, 1 lines]\n  1| aaaaaaaaaaaaaaaaaaaaaaaaaaaaaaaaaaaaaaaaaaaaaaaaaaaaaaaaaaaaaaaaaaaaaaaaaaaaaaaaaaaaaaaaaaaaaaaaaaaaaaaaaaaaaaaaaaaaaaaaaaaaaaaaaaaaaaaaaaaaaaaaaaaaaaaaaaaaaaaaaaaaaaaaaaaaaaaaaaaaaaaaaaaaaaaaaaaaaaaa...");
}

#[test]
fn format_content_long_lines_are_cut() {
    let text = format!("{}\ny", "x".repeat(255));
    assert_eq!(format_content(&text), "[CONTENT: 257 bytes, 2 lines]\n  1| xxxxxxxxxxxxxxxxxxxxxxxxxxxxxxxxxxxxxxxxxxxxxxxxxxxxxxxxxxxxxxxxxxxxxxxxxxxxxxxxxxxxxxxxxxxxxxxxxxxxxxxxxxxxxxxxxxxxxxxxxxxxxxxxxxxxxxxxxxxxxxxxxxxxxxxxxxxxxxxxxxxxxxxxxxxxxxxxxxxxxxxxxxxxxxxxxxxxxxxx...\n  2| y");
}

#[test]
fn format_content_counts_lines() {
    let text = "line\n".repeat(60);
    let out = format_content(&text);
    assert!(out.starts_with("[CONTENT: 300 bytes, 61 lines]\n  1| line\n"));
    assert!(out.ends_with(" 60| line\n 61|"));
    assert_eq!(out, "[CONTENT: 300 bytes, 61 lines]\n  1| line\n  2| line\n  3| line\n  4| line\n  5| line\n  6| line\n  7| line\n  8| line\n  9| line\n 10| line\n 11| line\n 12| line\n 13| line\n 14| line\n 15| line\n 16| line\n 17| line\n 18| line\n 19| line\n 20| line\n 21| line\n 22| line\n 23| line\n 24| line\n 25| line\n 26| line\n 27| line\n 28| line\n 29| line\n 30| line\n 31| line\n 32| line\n 33| line\n 34| line\n 35| line\n 36| line\n 37| line\n 38| line\n 39| line\n 40| line\n 41| line\n 42| line\n 43| line\n 44| line\n 45| line\n 46| line\n 47| line\n 48| line\n 49| line\n 50| line\n 51| line\n 52| line\n 53| line\n 54| line\n 55| line\n 56| line\n 57| line\n 58| line\n 59| line\n 60| line\n 61|");
}

#[test]
fn format_with_line_numbers_widens_past_999() {
    let text = "z\n".repeat(999);
    let out = format_with_line_numbers(&text);
    assert!(out.starts_with("[CONTENT: 1998 bytes, 1000 lines]\n   1| z\n"));
    assert!(out.ends_with(" 999| z\n1000|"));
    assert_eq!(out, "[CONTENT: 1998 bytes, 1000 lines]\n   1| z\n   2| z\n   3| z\n   4| z\n   5| z\n   6| z\n   7| z\n   8| z\n   9| z\n  10| z\n  11| z\n  12| z\n  13| z\n  14| z\n  15| z\n  16| z\n  17| z\n  18| z\n  19| z\n  20| z\n  21| z\n  22| z\n  23| z\n  24| z\n  25| z\n  26| z\n  27| z\n  28| z\n  29| z\n  30| z\n  31| z\n  32| z\n  33| z\n  34| z\n  35| z\n  36| z\n  37| z\n  38| z\n  39| z\n  40| z\n  41| z\n  42| z\n  43| z\n  44| z\n  45| z\n  46| z\n  47| z\n  48| z\n  49| z\n  50| z\n  51| z\n  52| z\n  53| z\n  54| z\n  55| z\n  56| z\n  57| z\n  58| z\n  59| z\n  60| z\n  61| z\n  62| z\n  63| z\n  64| z\n  65| z\n  66| z\n  67| z\n  68| z\n  69| z\n  70| z\n  71| z\n  72| z\n  73| z\n  74| z\n  75| z\n  76| z\n  77| z\n  78| z\n  79| z\n  80| z\n  81| z\n  82| z\n  83| z\n  84| z\n  85| z\n  86| z\n  87| z\n  88| z\n  89| z\n  90| z\n  91| z\n  92| z\n  93| z\n  94| z\n  95| z\n  96| z\n  97| z\n  98| z\n  99| z\n 100| z\n 101| z\n 102| z\n 103| z\n 104| z\n 105| z\n 106| z\n 107| z\n 108| z\n 109| z\n 110| z\n 111| z\n 112| z\n 113| z\n 114| z\n 115| z\n 116| z\n 117| z\n 118| z\n 119| z\n 120| z\n 121| z\n 122| z\n 123| z\n 124| z\n 125| z\n 126| z\n 127| z\n 128| z\n 129| z\n 130| z\n 131| z\n 132| z\n 133| z\n 134| z\n 135| z\n 136| z\n 137| z\n 138| z\n 139| z\n 140| z\n 141| z\n 142| z\n 143| z\n 144| z\n 145| z\n 146| z\n 147| z\n 148| z\n 149| z\n 150| z\n 151| z\n 152| z\n 153| z\n 154| z\n 155| z\n 156| z\n 157| z\n 158| z\n 159| z\n 160| z\n 161| z\n 162| z\n 163| z\n 164| z\n 165| z\n 166| z\n 167| z\n 168| z\n 169| z\n 170| z\n 171| z\n 172| z\n 173| z\n 174| z\n 175| z\n 176| z\n 177| z\n 178| z\n 179| z\n 180| z\n 181| z\n 182| z\n 183| z\n 184| z\n 185| z\n 186| z\n 187| z\n 188| z\n 189| z\n 190| z\n 191| z\n 192| z\n 193| z\n 194| z\n 195| z\n 196| z\n 197| z\n 198| z\n 199| z\n 200| z\n 201| z\n 202| z\n 203| z\n 204| z\n 205| z\n 206| z\n 207| z\n 208| z\n 209| z\n 210| z\n 211| z\n 212| z\n 213| z\n 214| z\n 215| z\n 216| z\n 217| z\n 218| z\n 219| z\n 220| z\n 221| z\n 222| z\n 223| z\n 224| z\n 225| z\n 226| z\n 227| z\n 228| z\n 229| z\n 230| z\n 231| z\n 232| z\n 233| z\n 234| z\n 235| z\n 236| z\n 237| z\n 238| z\n 239| z\n 240| z\n 241| z\n 242| z\n 243| z\n 244| z\n 245| z\n 246| z\n 247| z\n 248| z\n 249| z\n 250| z\n 251| z\n 252| z\n 253| z\n 254| z\n 255| z\n 256| z\n 257| z\n 258| z\n 259| z\n 260| z\n 261| z\n 262| z\n 263| z\n 264| z\n 265| z\n 266| z\n 267| z\n 268| z\n 269| z\n 270| z\n 271| z\n 272| z\n 273| z\n 274| z\n 275| z\n 276| z\n 277| z\n 278| z\n 279| z\n 280| z\n 281| z\n 282| z\n 283| z\n 284| z\n 285| z\n 286| z\n 287| z\n 288| z\n 289| z\n 290| z\n 291| z\n 292| z\n 293| z\n 294| z\n 295| z\n 296| z\n 297| z\n 298| z\n 299| z\n 300| z\n 301| z\n 302| z\n 303| z\n 304| z\n 305| z\n 306| z\n 307| z\n 308| z\n 309| z\n 310| z\n 311| z\n 312| z\n 313| z\n 314| z\n 315| z\n 316| z\n 317| z\n 318| z\n 319| z\n 320| z\n 321| z\n 322| z\n 323| z\n 324| z\n 325| z\n 326| z\n 327| z\n 328| z\n 329| z\n 330| z\n 331| z\n 332| z\n 333| z\n 334| z\n 335| z\n 336| z\n 337| z\n 338| z\n 339| z\n 340| z\n 341| z\n 342| z\n 343| z\n 344| z\n 345| z\n 346| z\n 347| z\n 348| z\n 349| z\n 350| z\n 351| z\n 352| z\n 353| z\n 354| z\n 355| z\n 356| z\n 357| z\n 358| z\n 359| z\n 360| z\n 361| z\n 362| z\n 363| z\n 364| z\n 365| z\n 366| z\n 367| z\n 368| z\n 369| z\n 370| z\n 371| z\n 372| z\n 373| z\n 374| z\n 375| z\n 376| z\n 377| z\n 378| z\n 379| z\n 380| z\n 381| z\n 382| z\n 383| z\n 384| z\n 385| z\n 386| z\n 387| z\n 388| z\n 389| z\n 390| z\n 391| z\n 392| z\n 393| z\n 394| z\n 395| z\n 396| z\n 397| z\n 398| z\n 399| z\n 400| z\n 401| z\n 402| z\n 403| z\n 404| z\n 405| z\n 406| z\n 407| z\n 408| z\n 409| z\n 410| z\n 411| z\n 412| z\n 413| z\n 414| z\n 415| z\n 416| z\n 417| z\n 418| z\n 419| z\n 420| z\n 421| z\n 422| z\n 423| z\n 424| z\n 425| z\n 426| z\n 427| z\n 428| z\n 429| z\n 430| z\n 431| z\n 432| z\n 433| z\n 434| z\n 435| z\n 436| z\n 437| z\n 438| z\n 439| z\n 440| z\n 441| z\n 442| z\n 443| z\n 444| z\n 445| z\n 446| z\n 447| z\n 448| z\n 449| z\n 450| z\n 451| z\n 452| z\n 453| z\n 454| z\n 455| z\n 456| z\n 457| z\n 458| z\n 459| z\n 460| z\n 461| z\n 462| z\n 463| z\n 464| z\n 465| z\n 466| z\n 467| z\n 468| z\n 469| z\n 470| z\n 471| z\n 472| z\n 473| z\n 474| z\n 475| z\n 476| z\n 477| z\n 478| z\n 479| z\n 480| z\n 481| z\n 482| z\n 483| z\n 484| z\n 485| z\n 486| z\n 487| z\n 488| z\n 489| z\n 490| z\n 491| z\n 492| z\n 493| z\n 494| z\n 495| z\n 496| z\n 497| z\n 498| z\n 499| z\n 500| z\n 501| z\n 502| z\n 503| z\n 504| z\n 505| z\n 506| z\n 507| z\n 508| z\n 509| z\n 510| z\n 511| z\n 512| z\n 513| z\n 514| z\n 515| z\n 516| z\n 517| z\n 518| z\n 519| z\n 520| z\n 521| z\n 522| z\n 523| z\n 524| z\n 525| z\n 526| z\n 527| z\n 528| z\n 529| z\n 530| z\n 531| z\n 532| z\n 533| z\n 534| z\n 535| z\n 536| z\n 537| z\n 538| z\n 539| z\n 540| z\n 541| z\n 542| z\n 543| z\n 544| z\n 545| z\n 546| z\n 547| z\n 548| z\n 549| z\n 550| z\n 551| z\n 552| z\n 553| z\n 554| z\n 555| z\n 556| z\n 557| z\n 558| z\n 559| z\n 560| z\n 561| z\n 562| z\n 563| z\n 564| z\n 565| z\n 566| z\n 567| z\n 568| z\n 569| z\n 570| z\n 571| z\n 572| z\n 573| z\n 574| z\n 575| z\n 576| z\n 577| z\n 578| z\n 579| z\n 580| z\n 581| z\n 582| z\n 583| z\n 584| z\n 585| z\n 586| z\n 587| z\n 588| z\n 589| z\n 590| z\n 591| z\n 592| z\n 593| z\n 594| z\n 595| z\n 596| z\n 597| z\n 598| z\n 599| z\n 600| z\n 601| z\n 602| z\n 603| z\n 604| z\n 605| z\n 606| z\n 607| z\n 608| z\n 609| z\n 610| z\n 611| z\n 612| z\n 613| z\n 614| z\n 615| z\n 616| z\n 617| z\n 618| z\n 619| z\n 620| z\n 621| z\n 622| z\n 623| z\n 624| z\n 625| z\n 626| z\n 627| z\n 628| z\n 629| z\n 630| z\n 631| z\n 632| z\n 633| z\n 634| z\n 635| z\n 636| z\n 637| z\n 638| z\n 639| z\n 640| z\n 641| z\n 642| z\n 643| z\n 644| z\n 645| z\n 646| z\n 647| z\n 648| z\n 649| z\n 650| z\n 651| z\n 652| z\n 653| z\n 654| z\n 655| z\n 656| z\n 657| z\n 658| z\n 659| z\n 660| z\n 661| z\n 662| z\n 663| z\n 664| z\n 665| z\n 666| z\n 667| z\n 668| z\n 669| z\n 670| z\n 671| z\n 672| z\n 673| z\n 674| z\n 675| z\n 676| z\n 677| z\n 678| z\n 679| z\n 680| z\n 681| z\n 682| z\n 683| z\n 684| z\n 685| z\n 686| z\n 687| z\n 688| z\n 689| z\n 690| z\n 691| z\n 692| z\n 693| z\n 694| z\n 695| z\n 696| z\n 697| z\n 698| z\n 699| z\n 700| z\n 701| z\n 702| z\n 703| z\n 704| z\n 705| z\n 706| z\n 707| z\n 708| z\n 709| z\n 710| z\n 711| z\n 712| z\n 713| z\n 714| z\n 715| z\n 716| z\n 717| z\n 718| z\n 719| z\n 720| z\n 721| z\n 722| z\n 723| z\n 724| z\n 725| z\n 726| z\n 727| z\n 728| z\n 729| z\n 730| z\n 731| z\n 732| z\n 733| z\n 734| z\n 735| z\n 736| z\n 737| z\n 738| z\n 739| z\n 740| z\n 741| z\n 742| z\n 743| z\n 744| z\n 745| z\n 746| z\n 747| z\n 748| z\n 749| z\n 750| z\n 751| z\n 752| z\n 753| z\n 754| z\n 755| z\n 756| z\n 757| z\n 758| z\n 759| z\n 760| z\n 761| z\n 762| z\n 763| z\n 764| z\n 765| z\n 766| z\n 767| z\n 768| z\n 769| z\n 770| z\n 771| z\n 772| z\n 773| z\n 774| z\n 775| z\n 776| z\n 777| z\n 778| z\n 779| z\n 780| z\n 781| z\n 782| z\n 783| z\n 784| z\n 785| z\n 786| z\n 787| z\n 788| z\n 789| z\n 790| z\n 791| z\n 792| z\n 793| z\n 794| z\n 795| z\n 796| z\n 797| z\n 798| z\n 799| z\n 800| z\n 801| z\n 802| z\n 803| z\n 804| z\n 805| z\n 806| z\n 807| z\n 808| z\n 809| z\n 810| z\n 811| z\n 812| z\n 813| z\n 814| z\n 815| z\n 816| z\n 817| z\n 818| z\n 819| z\n 820| z\n 821| z\n 822| z\n 823| z\n 824| z\n 825| z\n 826| z\n 827| z\n 828| z\n 829| z\n 830| z\n 831| z\n 832| z\n 833| z\n 834| z\n 835| z\n 836| z\n 837| z\n 838| z\n 839| z\n 840| z\n 841| z\n 842| z\n 843| z\n 844| z\n 845| z\n 846| z\n 847| z\n 848| z\n 849| z\n 850| z\n 851| z\n 852| z\n 853| z\n 854| z\n 855| z\n 856| z\n 857| z\n 858| z\n 859| z\n 860| z\n 861| z\n 862| z\n 863| z\n 864| z\n 865| z\n 866| z\n 867| z\n 868| z\n 869| z\n 870| z\n 871| z\n 872| z\n 873| z\n 874| z\n 875| z\n 876| z\n 877| z\n 878| z\n 879| z\n 880| z\n 881| z\n 882| z\n 883| z\n 884| z\n 885| z\n 886| z\n 887| z\n 888| z\n 889| z\n 890| z\n 891| z\n 892| z\n 893| z\n 894| z\n 895| z\n 896| z\n 897| z\n 898| z\n 899| z\n 900| z\n 901| z\n 902| z\n 903| z\n 904| z\n 905| z\n 906| z\n 907| z\n 908| z\n 909| z\n 910| z\n 911| z\n 912| z\n 913| z\n 914| z\n 915| z\n 916| z\n 917| z\n 918| z\n 919| z\n 920| z\n 921| z\n 922| z\n 923| z\n 924| z\n 925| z\n 926| z\n 927| z\n 928| z\n 929| z\n 930| z\n 931| z\n 932| z\n 933| z\n 934| z\n 935| z\n 936| z\n 937| z\n 938| z\n 939| z\n 940| z\n 941| z\n 942| z\n 943| z\n 944| z\n 945| z\n 946| z\n 947| z\n 948| z\n 949| z\n 950| z\n 951| z\n 952| z\n 953| z\n 954| z\n 955| z\n 956| z\n 957| z\n 958| z\n 959| z\n 960| z\n 961| z\n 962| z\n 963| z\n 964| z\n 965| z\n 966| z\n 967| z\n 968| z\n 969| z\n 970| z\n 971| z\n 972| z\n 973| z\n 974| z\n 975| z\n 976| z\n 977| z\n 978| z\n 979| z\n 980| z\n 981| z\n 982| z\n 983| z\n 984| z\n 985| z\n 986| z\n 987| z\n 988| z\n 989| z\n 990| z\n 991| z\n 992| z\n 993| z\n 994| z\n 995| z\n 996| z\n 997| z\n 998| z\n 999| z\n1000|");
}

#[test]
fn format_with_line_numbers_multibyte_cut() {
    let text = "é".repeat(150);
    assert_eq!(format_with_line_numbers(&text), "[CONTENT: 300 bytes, 1 lines]\n  1| éééééééééééééééééééééééééééééééééééééééééééééééééééééééééééééééééééééééééééééééééééééééééééééééééééé...");
}

#[test]
fn format_hex_with_offset_layout() {
    assert_eq!(format_hex_with_offset(&(0u8..17).collect::<Vec<u8>>()), "[BINARY: 17 bytes]\n00000000| 00 01 02 03 04 05 06 07  08 09 0a 0b 0c 0d 0e 0f  |................|\n00000010| 10                                                |.|");
    assert_eq!(format_hex_with_offset(b"Hello, world! 0123456789"), "[BINARY: 24 bytes]\n00000000| 48 65 6c 6c 6f 2c 20 77  6f 72 6c 64 21 20 30 31  |Hello, world! 01|\n00000010| 32 33 34 35 36 37 38 39                           |23456789|");
    assert_eq!(format_hex_with_offset(&[]), "[BINARY: 0 bytes]");
}

#[test]
fn format_content_bytes_variants() {
    assert_eq!(format_content_bytes(b"plain"), "\"plain\"");
    assert_eq!(format_content_bytes(&[0xff; 9]), "\"\\xff\\xff\\xff\\xff\\xff\\xff\\xff\\xff\\xff\"");
    let big: Vec<u8> = (0..300u32).map(|i| if i == 0 { 0xff } else { (i % 256) as u8 }).collect();
    assert_eq!(format_content_bytes(&big), "[BINARY: 300 bytes]\n00000000| ff 01 02 03 04 05 06 07  08 09 0a 0b 0c 0d 0e 0f  |................|\n00000010| 10 11 12 13 14 15 16 17  18 19 1a 1b 1c 1d 1e 1f  |................|\n00000020| 20 21 22 23 24 25 26 27  28 29 2a 2b 2c 2d 2e 2f  | !\"#$%&'()*+,-./|\n00000030| 30 31 32 33 34 35 36 37  38 39 3a 3b 3c 3d 3e 3f  |0123456789:;<=>?|\n00000040| 40 41 42 43 44 45 46 47  48 49 4a 4b 4c 4d 4e 4f  |@ABCDEFGHIJKLMNO|\n00000050| 50 51 52 53 54 55 56 57  58 59 5a 5b 5c 5d 5e 5f  |PQRSTUVWXYZ[\\]^_|\n00000060| 60 61 62 63 64 65 66 67  68 69 6a 6b 6c 6d 6e 6f  |`abcdefghijklmno|\n00000070| 70 71 72 73 74 75 76 77  78 79 7a 7b 7c 7d 7e 7f  |pqrstuvwxyz{|}~.|\n00000080| 80 81 82 83 84 85 86 87  88 89 8a 8b 8c 8d 8e 8f  |................|\n00000090| 90 91 92 93 94 95 96 97  98 99 9a 9b 9c 9d 9e 9f  |................|\n000000a0| a0 a1 a2 a3 a4 a5 a6 a7  a8 a9 aa ab ac ad ae af  |................|\n000000b0| b0 b1 b2 b3 b4 b5 b6 b7  b8 b9 ba bb bc bd be bf  |................|\n000000c0| c0 c1 c2 c3 c4 c5 c6 c7  c8 c9 ca cb cc cd ce cf  |................|\n000000d0| d0 d1 d2 d3 d4 d5 d6 d7  d8 d9 da db dc dd de df  |................|\n000000e0| e0 e1 e2 e3 e4 e5 e6 e7  e8 e9 ea eb ec ed ee ef  |................|\n000000f0| f0 f1 f2 f3 f4 f5 f6 f7  f8 f9 fa fb fc fd fe ff  |................|\n00000100| 00 01 02 03 04 05 06 07  08 09 0a 0b 0c 0d 0e 0f  |................|\n00000110| 10 11 12 13 14 15 16 17  18 19 1a 1b 1c 1d 1e 1f  |................|\n00000120| 20 21 22 23 24 25 26 27  28 29 2a 2b              | !\"#$%&'()*+|");
}

#[test]
fn simple_log_messages() {
    assert_eq!(log_app_exit(), "=== Application exiting ===");
    assert_eq!(log_selection_clear(), "SELECTION_CLEAR");
    assert_eq!(log_menu_open("File"), "MENU_OPEN: \"File\"");
    assert_eq!(log_menu_click("File > Save"), "MENU_CLICK: \"File > Save\"");
    assert_eq!(log_menu_checkbox("View > Word Wrap", true), "MENU_CHECKBOX: \"View > Word Wrap\" -> checked");
    assert_eq!(log_menu_checkbox("View > Word Wrap", false), "MENU_CHECKBOX: \"View > Word Wrap\" -> unchecked");
    assert_eq!(log_undo(), "UNDO");
    assert_eq!(log_redo(), "REDO");
    assert_eq!(log_duplicate_line(), "DUPLICATE_LINE");
    assert_eq!(log_select_all(), "SELECT_ALL");
    assert_eq!(log_word_wrap_toggle(true), "WORD_WRAP: enabled");
    assert_eq!(log_word_wrap_toggle(false), "WORD_WRAP: disabled");
    assert_eq!(log_encoding_change("UTF-8", "UTF-16"), "ENCODING: \"UTF-8\" -> \"UTF-16\"");
    assert_eq!(log_dialog_open("Find"), "DIALOG_OPEN: \"Find\"");
    assert_eq!(log_dialog_close("Find", "cancel"), "DIALOG_CLOSE: \"Find\" -> cancel");
    assert_eq!(log_action("reload"), "ACTION: reload");
    assert_eq!(log_error("disk full"), "ERROR: disk full");
}

#[test]
fn file_log_messages_escape_names() {
    assert_eq!(log_file_open("C:\\dir\\a \"b\".txt"), "FILE_OPEN: \"C:\\\\dir\\\\a \\\"b\\\".txt\"");
    assert_eq!(log_file_save("/tmp/x.txt"), "FILE_SAVE: \"/tmp/x.txt\"");
    assert_eq!(log_file_new("Untitled-2.txt"), "FILE_NEW: \"Untitled-2.txt\"");
    assert_eq!(log_file_close("a.txt", true), "FILE_CLOSE: \"a.txt\" (unsaved changes discarded)");
    assert_eq!(log_file_close("a\tb.txt", false), "FILE_CLOSE: \"a\\tb.txt\"");
}

#[test]
fn search_and_replace_messages() {
    assert_eq!(log_search("ne\nedle", true), "SEARCH: \"ne\\nedle\" -> found");
    assert_eq!(log_search("x", false), "SEARCH: \"x\" -> not found");
    assert_eq!(log_replace("a", "\"b\"", 12), "REPLACE: \"a\" -> \"\\\"b\\\"\" (12 occurrences)");
    assert_eq!(log_replace("", "", 0), "REPLACE: \"\" -> \"\" (0 occurrences)");
}

#[test]
fn content_log_messages() {
    assert_eq!(log_text_input("hi\n"), "TEXT_INPUT: \"hi\\n\"");
    assert_eq!(log_paste(b"p\xffq"), "PASTE: \"p\\xffq\"");
    assert_eq!(log_delete("d", "backspace"), "DELETE: \"d\" [backspace]");
    assert_eq!(log_cut(b"cut"), "CUT: \"cut\"");
    assert_eq!(log_copy(b""), "COPY: \"\"");
    assert_eq!(log_content_snapshot("body", "my \"doc\".txt"), "CONTENT_SNAPSHOT: doc=\"my \\\"doc\\\".txt\" \"body\"");
}

#[test]
fn position_log_messages() {
    assert_eq!(log_cursor_move(Point { x: 0, y: 0 }, Point { x: 3, y: 1 }, 0, 17, "arrow_down"), "CURSOR_MOVE: Ln 1, Col 1 (offset 0) -> Ln 2, Col 4 (offset 17) [arrow_down]");
    assert_eq!(log_cursor_move(Point { x: -1, y: -2 }, Point { x: 0, y: 0 }, 5, 5, "click"), "CURSOR_MOVE: Ln -1, Col 0 (offset 5) -> Ln 1, Col 1 (offset 5) [click]");
    assert_eq!(log_selection(Point { x: 4, y: 0 }, Point { x: 2, y: 1 }, 4, 30, None), "SELECTION: Ln 1, Col 5 (offset 4) to Ln 2, Col 3 (offset 30)");
    assert_eq!(log_selection(Point { x: 0, y: 0 }, Point { x: 2, y: 0 }, 0, 2, Some(b"ab")), "SELECTION: Ln 1, Col 1 (offset 0) to Ln 1, Col 3 (offset 2) content=\"ab\"");
    assert_eq!(log_goto(Point { x: 9, y: 41 }), "GOTO: line 42, column 10");
    assert_eq!(log_mouse_click(Point { x: 12, y: -3 }, "left", "editor"), "MOUSE_CLICK: (12,-3) [left] -> editor");
    assert_eq!(log_mouse_drag(Point { x: 1, y: 2 }, Point { x: 30, y: 4 }), "MOUSE_DRAG: (1,2) -> (30,4)");
}

#[test]
fn app_start_messages() {
    let (banner, session) = log_app_start("/home/u/proj", 4242);
    assert_eq!(banner, "=== Application started ===");
    assert_eq!(session, "SESSION: cwd=\"/home/u/proj\" pid=4242");
}
